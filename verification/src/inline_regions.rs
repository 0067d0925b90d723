//! Whole inlined bodies: their blocks, and the callees inlined into them.
use crate::code::status;
use crate::code::step;
use crate::code::kept;
use crate::code::Code;
use crate::code::Event;
use crate::code::Inst;
use crate::code::Status;
use crate::code::World;
use crate::control::CompileFailure;
use crate::exits::pc_store;
use crate::inline_body::boundary_at;
use crate::inline_body::child_at;
use crate::inline_body::does;
use crate::inline_body::end_ok;
use crate::inline_body::ended;
use crate::inline_body::ends_block;
use crate::inline_body::extra;
use crate::inline_body::find_boundary;
use crate::inline_body::find_child;
use crate::inline_body::operands;
use crate::inline_body::polled;
use crate::inline_body::settled;
use crate::inline_body::stepped;
use crate::inline_body::count_operands;
use crate::inline_body::end_offered;
use crate::inline_body::poll_offered;
use crate::inline_body::settle_offered;
use crate::inline_body::work_offered;
use crate::inline_body::stops;
use crate::inline_calls::admitted;
use crate::inline_calls::entering;
use crate::inline_calls::open_frame;
use crate::inline_calls::opened;
use crate::inline_calls::MAX_INLINE_BLOCKS;
use crate::inline_frames::checked;
use crate::inline_frames::on;
use crate::inline_frames::turned;
use crate::inline_frames::FrameRegion;
use crate::inline_frames::InlineAddresses;
use crate::inline_frames::InlineBoundary;
use crate::inline_frames::InlineCallKind;
use crate::inline_frames::InlineFrame;
use crate::inline_frames::InlineIds;
use crate::inline_frames::InlineOp;
use crate::inline_frames::Offers;
use crate::inline_ops::call_base;
use crate::inline_ops::call_function;
use crate::typing::steady;
use crate::typing::closing;
use crate::typing::calm;
use crate::assemble::Known;
use crate::frame_typing::pair_held;
use crate::frame_typing::slot_named;
use crate::frame_typing::slots_named;
use crate::frame_typing::cached_named;
use crate::frame_typing::cache_named;
use crate::frame_typing::ids_held;
use crate::typing::rewritten;
use crate::typing::shut;
use crate::typing::live;
use crate::clif::Passed;
use crate::lower_values::has_checked_form;
use vstd::prelude::*;

verus! {

broadcast use {crate::typing::group_typing, crate::frame_typing::group_frame};

/// Every boundary leaves its instruction enough operands.
pub open spec fn region_wf(region: FrameRegion) -> bool {
    forall|b: int, k: int|
        0 <= b < region.blocks@.len() && 0 <= k < region.blocks@[b].instructions@.len() ==> {
            let i = #[trigger] region.blocks@[b].instructions@[k];
            boundary_at(region, i.pc) matches Some(j) ==> operands(i.op) <= region.boundaries@[j].stack_before
        }
}

pub open spec fn regions_wf(regions: Seq<FrameRegion>) -> bool {
    forall|r: int| 0 <= r < regions.len() ==> region_wf(#[trigger] regions[r])
}

fn region_fits(region: &FrameRegion) -> (r: bool)
    ensures
        r == region_wf(*region),
{
    let mut b: usize = 0;
    while b < region.blocks.len()
        invariant
            b <= region.blocks@.len(),
            forall|c: int, k: int|
                0 <= c < b && 0 <= k < region.blocks@[c].instructions@.len() ==> {
                    let i = #[trigger] region.blocks@[c].instructions@[k];
                    boundary_at(*region, i.pc) matches Some(j) ==> operands(i.op) <= region.boundaries@[j].stack_before
                },
        decreases region.blocks@.len() - b,
    {
        let instructions = &region.blocks[b].instructions;
        let mut k: usize = 0;
        while k < instructions.len()
            invariant
                k <= instructions@.len(),
                b < region.blocks@.len(),
                *instructions == region.blocks@[b as int].instructions,
                forall|q: int|
                    0 <= q < k ==> {
                        let i = #[trigger] instructions@[q];
                        boundary_at(*region, i.pc) matches Some(j) ==> operands(i.op) <= region.boundaries@[j].stack_before
                    },
            decreases instructions@.len() - k,
        {
            let i = instructions[k];
            if let Some(j) = find_boundary(region, i.pc) {
                if count_operands(i.op) > region.boundaries[j].stack_before {
                    assert(region.blocks@[b as int].instructions@[k as int] == i);
                    return false;
                }
            }
            k = k + 1;
        }
        b = b + 1;
    }
    true
}

/// Every boundary of every region leaves its instruction enough operands.
pub fn regions_fit(regions: &Vec<FrameRegion>) -> (r: bool)
    ensures
        r == regions_wf(regions@),
{
    let mut r: usize = 0;
    while r < regions.len()
        invariant
            r <= regions@.len(),
            forall|q: int| 0 <= q < r ==> region_wf(#[trigger] regions@[q]),
        decreases regions@.len() - r,
    {
        if !region_fits(&regions[r]) {
            assert(!region_wf(regions@[r as int]));
            return false;
        }
        r = r + 1;
    }
    true
}

pub open spec fn kind_of(has_this: bool) -> InlineCallKind {
    if has_this {
        InlineCallKind::Method
    } else {
        InlineCallKind::Call
    }
}

/// The child is for this call, and its body can be emitted.
pub open spec fn child_ok(o: Offers, regions: Seq<FrameRegion>, r: int, child: int, boundary: InlineBoundary, has_this: bool) -> bool
    decreases regions.len() - r, 0int, 0int,
{
    if r < child < regions.len() {
        let region = regions[child];
        &&& region.call_kind == kind_of(has_this)
        &&& region.call_pc == boundary.pc
        &&& region.resume_pc == boundary.next_pc
        &&& 0 < region.blocks@.len() <= MAX_INLINE_BLOCKS
        &&& o.enter && o.resume && o.check
        &&& blocks_ok(o, regions, child, 0)
    } else {
        false
    }
}

/// The instructions from `k` on of a block can be emitted.
pub open spec fn block_ok(o: Offers, regions: Seq<FrameRegion>, r: int, b: int, k: int, depth: int) -> bool
    decreases regions.len() - r, 1int, regions[r].blocks@[b].instructions@.len() - k,
    when r < regions.len()
{
    let region = regions[r];
    let instructions = region.blocks@[b].instructions@;
    if k >= instructions.len() {
        b + 1 < region.blocks@.len()
    } else {
        let i = instructions[k];
        if i.op is Poll || i.op is OsrLabel {
            (i.op matches InlineOp::Poll { entry } && !entry ==> poll_offered(o)) && block_ok(o, regions, r, b, k + 1, depth)
        } else {
            match boundary_at(region, i.pc) {
                None => false,
                Some(j) => {
                    let boundary = region.boundaries@[j];
                    &&& boundary.stack_before == depth
                    &&& i.op matches InlineOp::Call { argc, has_this } ==> argc + extra(has_this) <= depth
                    &&& if stops(i.op, boundary, depth) {
                        end_ok(region, b, i.op, depth) && end_offered(o, i.op)
                    } else {
                        &&& i.op matches InlineOp::Call { argc, has_this } ==> call_base(argc, has_this, depth) >= 0
                        &&& settle_offered(o, i.op)
                        &&& match (i.op, child_at(region, i.pc)) {
                            (InlineOp::Call { has_this, .. }, Some(c)) => child_ok(
                                o,
                                regions,
                                r,
                                region.children@[c].region as int,
                                boundary,
                                has_this,
                            ),
                            _ => work_offered(o, i.op),
                        }
                        &&& block_ok(o, regions, r, b, k + 1, boundary.stack_after as int)
                    }
                },
            }
        }
    }
}

/// The blocks from `b` on can be emitted.
pub open spec fn blocks_ok(o: Offers, regions: Seq<FrameRegion>, r: int, b: int) -> bool
    decreases regions.len() - r, 2int, regions[r].blocks@.len() - b,
    when r < regions.len()
{
    if b >= regions[r].blocks@.len() {
        true
    } else {
        block_ok(o, regions, r, b, 0, regions[r].blocks@[b].stack_depth as int) && blocks_ok(o, regions, r, b + 1)
    }
}

pub open spec fn child_frame<'a>(f: InlineFrame<'a>, region: usize, ids: InlineIds) -> InlineFrame<'a> {
    InlineFrame { region, ids, ..f }
}

/// The code is continued.
pub open spec fn longer(c1: Seq<Inst>, c2: Seq<Inst>) -> bool {
    c1.len() <= c2.len()
}

/// The code enters a block, which control may come back to.
pub open spec fn entered(c1: Seq<Inst>, c2: Seq<Inst>, block: usize) -> bool {
    c2 == c1.push(Inst::Enter { block })
}

/// The blocks were made between two points of the code, each on its own.
pub open spec fn blocks_made(natives: Seq<usize>, c1: Seq<Inst>, c2: Seq<Inst>) -> bool {
    &&& forall|i: int|
        0 <= i < natives.len() ==> c1.len() <= #[trigger] natives[i] < c2.len() && c2[natives[i] as int] == (Inst::NewBlock {
            cold: false,
        })
    &&& forall|i: int, j: int| 0 <= i < j < natives.len() ==> #[trigger] natives[i] < #[trigger] natives[j]
}

/// The code leaves for a block.
pub open spec fn jumped(c1: Seq<Inst>, c2: Seq<Inst>, block: usize) -> bool {
    c1.len() <= c2.len() && forall|w: World|
        match #[trigger] status(c1, w) {
            Status::Run(s) => status(c2, w) == (Status::Wait { block: block as int, args: Seq::empty(), state: s }),
            st => status(c2, w) == st,
        }
}

/// The code enters a callee: control goes on in a frame that `ids` address, or
/// the interpreter has taken over.
pub open spec fn child_entered(
    f: InlineFrame<'_>,
    child: usize,
    ids: InlineIds,
    boundary: InlineBoundary,
    argc: u16,
    has_this: bool,
    depth: int,
    c1: Seq<Inst>,
    c2: Seq<Inst>,
) -> bool {
    let g = child_frame(f, child, ids);
    &&& c1.len() <= c2.len()
    &&& g.wf(c2.len() as int)
    &&& forall|w: World|
        match #[trigger] status(c1, w) {
            Status::Run(s) => {
                let a = f.addresses(s);
                let e = entering(f, a, f.regions@[child as int], s.trace, boundary, argc, has_this, depth, w);
                if e.turn.end is On {
                    let o = opened(*f.root.abi, e.turn.trace, e.output, w);
                    let inner = InlineAddresses {
                        frame: o.frame,
                        arguments: o.arguments,
                        locals: o.locals,
                        stack: o.stack,
                        ..a
                    };
                    let turn = admitted(g, inner, a.stack, call_function(argc, has_this, depth), o.trace, w);
                    &&& turned(status(c2, w), s, c1.len() as int, turn)
                    &&& turn.end is On ==> g.addresses(status(c2, w)->Run_0) == inner
                } else {
                    turned(status(c2, w), s, c1.len() as int, e.turn)
                }
            },
            st => status(c2, w) == st,
        }
}

/// The code goes on behind a callee that has been left, where the frame around
/// it is still valid.
pub open spec fn child_left(f: InlineFrame<'_>, continuation: usize, pc: u32, c1: Seq<Inst>, c2: Seq<Inst>) -> bool {
    c1.len() <= c2.len() && forall|w: World|
        match step(#[trigger] status(c1, w), Inst::Switch { block: continuation }, c1.len() as int, w) {
            Status::Run(s) => turned(
                status(c2, w),
                s,
                (c1.len() + 1) as int,
                checked(f, f.addresses(s), s.trace, pc, w),
            ),
            st => status(c2, w) == st,
        }
}

pub open spec fn poll_code(f: InlineFrame<'_>, pc: u32, depth: int, c1: Seq<Inst>, c2: Seq<Inst>) -> bool {
    does(f, c1, c2, |a: InlineAddresses, t: Seq<Event>, w: World| polled(f, a, t, pc, depth, w))
}

pub open spec fn step_code(
    f: InlineFrame<'_>,
    op: InlineOp,
    boundary: InlineBoundary,
    depth: int,
    c1: Seq<Inst>,
    c2: Seq<Inst>,
) -> bool {
    does(f, c1, c2, |a: InlineAddresses, t: Seq<Event>, w: World| stepped(f, a, t, op, boundary, depth, w))
}

pub open spec fn origin_code(f: InlineFrame<'_>, pc: u32, c1: Seq<Inst>, c2: Seq<Inst>) -> bool {
    does(f, c1, c2, |a: InlineAddresses, t: Seq<Event>, w: World| on(pc_store(t, *f.root.abi, a.frame, pc, w)))
}

pub open spec fn settle_code(f: InlineFrame<'_>, op: InlineOp, boundary: InlineBoundary, c1: Seq<Inst>, c2: Seq<Inst>) -> bool {
    does(f, c1, c2, |a: InlineAddresses, t: Seq<Event>, w: World| settled(f, a, t, op, boundary, w))
}

/// A call of an inlined callee.
pub open spec fn nested_call(
    f: InlineFrame<'_>,
    child: usize,
    boundary: InlineBoundary,
    argc: u16,
    has_this: bool,
    depth: int,
    c1: Seq<Inst>,
    c2: Seq<Inst>,
) -> bool
    decreases f.regions@.len() - f.region, 0int, 0int,
{
    f.region < child < f.regions@.len() && exists|ids: InlineIds, continuation: usize, ca: Seq<Inst>, cb: Seq<Inst>|
        {
            &&& #[trigger] child_entered(f, child, ids, boundary, argc, has_this, depth, c1, ca)
            &&& body_code(child_frame(f, child, ids), continuation, ca, cb)
            &&& #[trigger] child_left(f, continuation, boundary.next_pc, cb, c2)
        }
}

/// The code of the instructions from `k` on of a block.
pub open spec fn block_code(
    f: InlineFrame<'_>,
    natives: Seq<usize>,
    continuation: usize,
    b: int,
    k: int,
    depth: int,
    c1: Seq<Inst>,
    c2: Seq<Inst>,
) -> bool
    decreases f.regions@.len() - f.region, 1int, f.body().blocks@[b].instructions@.len() - k,
    when f.region < f.regions@.len()
{
    let instructions = f.body().blocks@[b].instructions@;
    if k >= instructions.len() {
        jumped(c1, c2, natives[b + 1])
    } else {
        let i = instructions[k];
        if i.op is OsrLabel || i.op == (InlineOp::Poll { entry: true }) {
            block_code(f, natives, continuation, b, k + 1, depth, c1, c2)
        } else if i.op is Poll {
            exists|c: Seq<Inst>|
                {
                    &&& #[trigger] poll_code(f, i.pc, depth, c1, c)
                    &&& block_code(f, natives, continuation, b, k + 1, depth, c, c2)
                }
        } else {
            let boundary = f.body().boundaries@[boundary_at(f.body(), i.pc)->Some_0];
            if stops(i.op, boundary, depth) {
                does(
                    f,
                    c1,
                    c2,
                    |a: InlineAddresses, t: Seq<Event>, w: World|
                        ended(f, a, t, natives, continuation, b, i.op, boundary, depth, w),
                )
            } else if i.op is Call && child_at(f.body(), i.pc) is Some {
                exists|c: Seq<Inst>|
                    {
                        &&& #[trigger] longer(c1, c)
                        &&& nested_step(f, i.op, boundary, depth, c1, c)
                        &&& block_code(f, natives, continuation, b, k + 1, boundary.stack_after as int, c, c2)
                    }
            } else {
                exists|c: Seq<Inst>|
                    {
                        &&& #[trigger] step_code(f, i.op, boundary, depth, c1, c)
                        &&& block_code(f, natives, continuation, b, k + 1, boundary.stack_after as int, c, c2)
                    }
            }
        }
    }
}

/// A call instruction whose callee is inlined: its origin, the callee, and
/// what follows every call.
pub open spec fn nested_step(
    f: InlineFrame<'_>,
    op: InlineOp,
    boundary: InlineBoundary,
    depth: int,
    c1: Seq<Inst>,
    c2: Seq<Inst>,
) -> bool
    decreases f.regions@.len() - f.region, 0int, 1int,
{
    exists|ca: Seq<Inst>, cb: Seq<Inst>|
        {
            &&& #[trigger] origin_code(f, boundary.pc, c1, ca)
            &&& nested_call(
                f,
                f.body().children@[child_at(f.body(), boundary.pc)->Some_0].region,
                boundary,
                op->argc,
                op->has_this,
                depth,
                ca,
                cb,
            )
            &&& #[trigger] settle_code(f, op, boundary, cb, c2)
        }
}

/// The code of the blocks from `b` on.
pub open spec fn blocks_code(f: InlineFrame<'_>, natives: Seq<usize>, continuation: usize, b: int, c1: Seq<Inst>, c2: Seq<Inst>) -> bool
    decreases f.regions@.len() - f.region, 2int, f.body().blocks@.len() - b,
    when f.region < f.regions@.len()
{
    if b >= f.body().blocks@.len() {
        c1 == c2
    } else {
        exists|ca: Seq<Inst>, cb: Seq<Inst>|
            {
                &&& #[trigger] entered(c1, ca, natives[b])
                &&& #[trigger] longer(ca, cb)
                &&& block_code(f, natives, continuation, b, 0, f.body().blocks@[b].stack_depth as int, ca, cb)
                &&& blocks_code(f, natives, continuation, b + 1, cb, c2)
            }
    }
}

/// The code of a body: each of its blocks has one of its own, control starts at
/// the first, and leaves for `continuation` when the body returns.
pub open spec fn body_code(f: InlineFrame<'_>, continuation: usize, c1: Seq<Inst>, c2: Seq<Inst>) -> bool
    decreases f.regions@.len() - f.region, 3int, 0int,
    when f.region < f.regions@.len()
{
    exists|natives: Seq<usize>, c: Seq<Inst>|
        {
            &&& natives.len() == f.body().blocks@.len()
            &&& natives.len() > 0
            &&& blocks_made(natives, c1, c)
            &&& #[trigger] jumped(c1, c, natives[0])
            &&& blocks_code(f, natives, continuation, 0, c, c2)
        }
}

/// The blocks stand there, each on its own, and those from `b` on wait for their
/// code.
pub open spec fn natives_wait(c: Code, natives: Seq<usize>, b: int) -> bool {
    &&& forall|i: int| 0 <= i < natives.len() ==> c.blocked(#[trigger] natives[i])
    &&& forall|i: int| b <= i < natives.len() ==> c.unstarted(#[trigger] natives[i] as int)
    &&& forall|i: int, j: int| 0 <= i < j < natives.len() ==> #[trigger] natives[i] < #[trigger] natives[j]
}

impl<'a> InlineFrame<'a> {
    /// Emits a whole body.
    pub fn emit_body(&self, code: &mut Code, continuation: usize) -> (r: Result<(), CompileFailure>)
        requires
            self.wf(old(code).len()),
            regions_wf(self.regions@),
            continuation < old(code).len(),
        ensures
            kept(*old(code), *final(code)),
            r is Ok && self.typed(*old(code)) && old(code).blocked(continuation) ==> closing(*old(code), *final(code)),
            r is Ok <==> self.body().blocks@.len() > 0 && blocks_ok(
                self.offers(),
                self.regions@,
                self.region as int,
                0,
            ),
            r is Err ==> r == Err::<(), CompileFailure>(CompileFailure::InvalidArtifact),
            r is Ok ==> old(code).len() <= final(code).len() && body_code(
                *self,
                continuation,
                old(code).insts@,
                final(code).insts@,
            ),
        decreases self.regions@.len() - self.region, 3int,
    {
        let blocks = &self.regions[self.region].blocks;
        if blocks.len() == 0 {
            return Err(CompileFailure::InvalidArtifact);
        }
        let mut natives: Vec<usize> = Vec::new();
        while natives.len() < blocks.len()
            invariant
                kept(*old(code), *code),
                self.typed(*old(code)) && old(code).blocked(continuation) ==> steady(*old(code), *code),
                natives_wait(*code, natives@, 0),
                natives@.len() <= blocks@.len(),
                old(code).len() <= code.len(),
                blocks_made(natives@, old(code).insts@, code.insts@),
                forall|w: World| #[trigger] code.at(w) == old(code).at(w),
            decreases blocks@.len() - natives@.len(),
        {
            let native = code.new_block();
            natives.push(native);
        }
        code.jump(natives[0]);
        assert(blocks_made(natives@, old(code).insts@, code.insts@));
        let ghost c1 = code.insts@;
        proof {
            assert(jumped(old(code).insts@, c1, natives@[0])) by {
                assert forall|w: World|
                    match #[trigger] status(old(code).insts@, w) {
                        Status::Run(s) => status(c1, w) == (Status::Wait {
                            block: natives@[0] as int,
                            args: Seq::empty(),
                            state: s,
                        }),
                        st => status(c1, w) == st,
                    } by {
                    let a0 = old(code).at(w);
                    let a1 = code.at(w);
                }
            }
        }
        match self.emit_blocks(code, &natives, continuation) {
            Ok(()) => {
                assert(natives@.len() == self.body().blocks@.len());
                Ok(())
            },
            Err(e) => Err(e),
        }
    }

    fn emit_blocks(&self, code: &mut Code, natives: &Vec<usize>, continuation: usize) -> (r: Result<(), CompileFailure>)
        requires
            self.wf(old(code).len()),
            regions_wf(self.regions@),
            continuation < old(code).len(),
            natives@.len() == self.body().blocks@.len(),
            forall|i: int| 0 <= i < natives@.len() ==> #[trigger] natives@[i] < old(code).len(),
        ensures
            kept(*old(code), *final(code)),
            r is Ok && self.typed(*old(code)) && natives_wait(*old(code), natives@, 0)
                && old(code).blocked(continuation)
                ==> (forall|block: int| 0 <= block < old(code).len() && !natives@.contains(block as usize) ==> #[trigger] final(code).unstarted(block) == old(code).unstarted(block))
                    && (forall|p: Seq<Passed>| shut(*old(code), p) ==> #[trigger] shut(*final(code), p)),
            r is Ok <==> blocks_ok(self.offers(), self.regions@, self.region as int, 0),
            r is Err ==> r == Err::<(), CompileFailure>(CompileFailure::InvalidArtifact),
            r is Ok ==> old(code).len() <= final(code).len() && blocks_code(
                *self,
                natives@,
                continuation,
                0,
                old(code).insts@,
                final(code).insts@,
            ),
        decreases self.regions@.len() - self.region, 2int,
    {
        let mut b: usize = 0;
        while b < natives.len()
            invariant
                kept(*old(code), *code),
                self.typed(*old(code)) && natives_wait(*old(code), natives@, 0)
                    && old(code).blocked(continuation)
                    ==> (forall|block: int| 0 <= block < old(code).len() && !natives@.contains(block as usize) ==> #[trigger] code.unstarted(block) == old(code).unstarted(block))
                        && (forall|p: Seq<Passed>| shut(*old(code), p) ==> #[trigger] shut(*code, p))
                        && self.typed(*code) && natives_wait(*code, natives@, b as int)
                        && code.blocked(continuation),
                b <= natives@.len(),
                self.wf(old(code).len()),
                regions_wf(self.regions@),
                continuation < old(code).len() <= code.len(),
                natives@.len() == self.body().blocks@.len(),
                forall|i: int| 0 <= i < natives@.len() ==> #[trigger] natives@[i] < old(code).len(),
                blocks_ok(self.offers(), self.regions@, self.region as int, 0) == blocks_ok(
                    self.offers(),
                    self.regions@,
                    self.region as int,
                    b as int,
                ),
                forall|c2: Seq<Inst>| #[trigger]
                    blocks_code(*self, natives@, continuation, b as int, code.insts@, c2) ==> blocks_code(
                        *self,
                        natives@,
                        continuation,
                        0,
                        old(code).insts@,
                        c2,
                    ),
            decreases natives@.len() - b,
        {
            let ghost c1 = code.insts@;
            if let Err(e) = self.emit_block(code, natives, continuation, b) {
                return Err(e);
            }
            proof {
                let cb = code.insts@;
                assert forall|c2: Seq<Inst>| #[trigger]
                    blocks_code(*self, natives@, continuation, b + 1, cb, c2) implies blocks_code(
                    *self,
                    natives@,
                    continuation,
                    0,
                    old(code).insts@,
                    c2,
                ) by {
                    let ca = c1.push(Inst::Enter { block: natives@[b as int] });
                    assert(entered(c1, ca, natives@[b as int]));
                    assert(longer(ca, cb));
                    assert(blocks_code(*self, natives@, continuation, b as int, c1, c2));
                }
            }
            b = b + 1;
        }
        assert(blocks_code(*self, natives@, continuation, b as int, code.insts@, code.insts@));
        Ok(())
    }

    /// Emits a block, and its jump to the next one where it does not end by itself.
    #[verifier::rlimit(60)]
    fn emit_block(&self, code: &mut Code, natives: &Vec<usize>, continuation: usize, b: usize) -> (r: Result<
        (),
        CompileFailure,
    >)
        requires
            self.wf(old(code).len()),
            regions_wf(self.regions@),
            continuation < old(code).len(),
            natives@.len() == self.body().blocks@.len(),
            forall|i: int| 0 <= i < natives@.len() ==> #[trigger] natives@[i] < old(code).len(),
            b < natives@.len(),
        ensures
            kept(*old(code), *final(code)),
            r is Ok && self.typed(*old(code)) && natives_wait(*old(code), natives@, b as int)
                && old(code).blocked(continuation)
                ==> rewritten(*old(code), *final(code), natives@[b as int]),
            r is Ok <==> block_ok(
                self.offers(),
                self.regions@,
                self.region as int,
                b as int,
                0,
                self.body().blocks@[b as int].stack_depth as int,
            ),
            r is Err ==> r == Err::<(), CompileFailure>(CompileFailure::InvalidArtifact),
            r is Ok ==> old(code).len() < final(code).len() && block_code(
                *self,
                natives@,
                continuation,
                b as int,
                0,
                self.body().blocks@[b as int].stack_depth as int,
                old(code).insts@.push(Inst::Enter { block: natives@[b as int] }),
                final(code).insts@,
            ),
        decreases self.regions@.len() - self.region, 1int,
    {
        let region = &self.regions[self.region];
        let block = &region.blocks[b];
        let _ = code.push(Inst::Enter { block: natives[b] });
        let ghost start = code.insts@;
        let mut depth: usize = block.stack_depth as usize;
        let mut k: usize = 0;
        while k < block.instructions.len()
            invariant
                kept(*old(code), *code),
                self.typed(*old(code)) && natives_wait(*old(code), natives@, b as int)
                    && old(code).blocked(continuation)
                    ==> self.typed(*code) && code.blocked(continuation)
                        && (forall|i: int| 0 <= i < natives@.len() ==> code.blocked(#[trigger] natives@[i]))
                        && (forall|p: Seq<Passed>| shut(*old(code), p) ==> #[trigger] live(*code, p))
                        && (forall|block: int| 0 <= block < old(code).len() && block != natives@[b as int] ==> #[trigger] code.unstarted(block) == old(code).unstarted(block)),
                k <= block.instructions@.len(),
                depth <= 0xffff,
                start == old(code).insts@.push(Inst::Enter { block: natives@[b as int] }),
                region == self.body(),
                block == self.body().blocks@[b as int],
                self.wf(old(code).len()),
                regions_wf(self.regions@),
                continuation < old(code).len() < code.len(),
                natives@.len() == self.body().blocks@.len(),
                forall|i: int| 0 <= i < natives@.len() ==> #[trigger] natives@[i] < old(code).len(),
                b < natives@.len(),
                block_ok(
                    self.offers(),
                    self.regions@,
                    self.region as int,
                    b as int,
                    0,
                    block.stack_depth as int,
                ) == block_ok(self.offers(), self.regions@, self.region as int, b as int, k as int, depth as int),
                forall|c2: Seq<Inst>| #[trigger]
                    block_code(*self, natives@, continuation, b as int, k as int, depth as int, code.insts@, c2)
                        ==> block_code(
                        *self,
                        natives@,
                        continuation,
                        b as int,
                        0,
                        block.stack_depth as int,
                        start,
                        c2,
                    ),
            decreases block.instructions@.len() - k,
        {
            let instruction = block.instructions[k];
            let op = instruction.op;
            let ghost c1 = code.insts@;
            let ghost depth0 = depth as int;
            match op {
                InlineOp::OsrLabel => {},
                InlineOp::Poll { entry } => {
                    if !entry {
                        if let Err(e) = self.emit_poll(code, instruction.pc, depth) {
                            return Err(e);
                        }
                        assert(poll_code(*self, instruction.pc, depth0, c1, code.insts@));
                    }
                },
                _ => {
                    let boundary = match find_boundary(region, instruction.pc) {
                        Some(j) => region.boundaries[j],
                        None => {
                            return Err(CompileFailure::InvalidArtifact);
                        },
                    };
                    if boundary.stack_before as usize != depth {
                        return Err(CompileFailure::InvalidArtifact);
                    }
                    proof {
                        assert(region_wf(self.regions@[self.region as int]));
                        assert(self.body().blocks@[b as int].instructions@[k as int] == instruction);
                        assert(operands(op) <= depth);
                    }
                    if let InlineOp::Call { argc, has_this } = op {
                        let above: usize = argc as usize + if has_this {
                            1
                        } else {
                            0
                        };
                        if above > depth {
                            return Err(CompileFailure::InvalidArtifact);
                        }
                    }
                    if ends_block(op, boundary, depth) {
                        if let Err(e) = self.emit_end(code, natives, continuation, b, op, boundary, depth) {
                            return Err(e);
                        }
                        assert(block_code(
                            *self,
                            natives@,
                            continuation,
                            b as int,
                            k as int,
                            depth0,
                            c1,
                            code.insts@,
                        ));
                        return Ok(());
                    }
                    if let Err(e) = self.emit_instruction(code, op, boundary, depth) {
                        return Err(e);
                    }
                    depth = boundary.stack_after as usize;
                },
            }
            proof {
                assert forall|c2: Seq<Inst>| #[trigger]
                    block_code(*self, natives@, continuation, b as int, k + 1, depth as int, code.insts@, c2) implies block_code(
                    *self,
                    natives@,
                    continuation,
                    b as int,
                    0,
                    block.stack_depth as int,
                    start,
                    c2,
                ) by {
                    assert(longer(c1, code.insts@));
                    assert(block_code(*self, natives@, continuation, b as int, k as int, depth0, c1, c2));
                }
            }
            k = k + 1;
        }
        if natives.len() - b <= 1 {
            return Err(CompileFailure::InvalidArtifact);
        }
        let ghost c1 = *code;
        code.jump(natives[b + 1]);
        proof {
            assert(jumped(c1.insts@, code.insts@, natives@[b + 1])) by {
                assert forall|w: World|
                    match #[trigger] status(c1.insts@, w) {
                        Status::Run(s) => status(code.insts@, w) == (Status::Wait {
                            block: natives@[b + 1] as int,
                            args: Seq::empty(),
                            state: s,
                        }),
                        st => status(code.insts@, w) == st,
                    } by {
                    let a0 = c1.at(w);
                    let a1 = code.at(w);
                }
            }
            assert(block_code(
                *self,
                natives@,
                continuation,
                b as int,
                k as int,
                depth as int,
                c1.insts@,
                code.insts@,
            ));
        }
        Ok(())
    }

    /// Emits an instruction that does not end its block.
    fn emit_instruction(&self, code: &mut Code, op: InlineOp, boundary: InlineBoundary, depth: usize) -> (r: Result<
        (),
        CompileFailure,
    >)
        requires
            self.wf(old(code).len()),
            regions_wf(self.regions@),
            operands(op) <= depth <= 0xffff,
        ensures
            kept(*old(code), *final(code)),
            r is Ok && self.typed(*old(code))
                && (op matches InlineOp::Binary(operation) ==> has_checked_form(operation))
                ==> steady(*old(code), *final(code)),
            r is Ok <==> instruction_ok(
                self.offers(),
                self.regions@,
                self.region as int,
                op,
                boundary,
                depth as int,
            ),
            r is Err ==> r == Err::<(), CompileFailure>(CompileFailure::InvalidArtifact),
            r is Ok ==> old(code).len() <= final(code).len() && if op is Call && child_at(self.body(), boundary.pc) is Some {
                nested_step(*self, op, boundary, depth as int, old(code).insts@, final(code).insts@)
            } else {
                step_code(*self, op, boundary, depth as int, old(code).insts@, final(code).insts@)
            },
        decreases self.regions@.len() - self.region, 0int,
    {
        if let InlineOp::Call { argc, has_this } = op {
            let consumed: usize = argc as usize + 1 + if has_this {
                1
            } else {
                0
            };
            if consumed > depth {
                return Err(CompileFailure::InvalidArtifact);
            }
            let region = &self.regions[self.region];
            if let Some(c) = find_child(region, boundary.pc) {
                let child = region.children[c].region;
                let ghost c0 = *code;
                self.origin(code, boundary.pc);
                let ghost c1 = *code;
                proof {
                    assert(origin_code(*self, boundary.pc, c0.insts@, c1.insts@)) by {
                        assert forall|w: World|
                            match #[trigger] status(c0.insts@, w) {
                                Status::Run(s) => turned(
                                    status(c1.insts@, w),
                                    s,
                                    c0.insts@.len() as int,
                                    on(pc_store(s.trace, *self.root.abi, self.addresses(s).frame, boundary.pc, w)),
                                ),
                                st => status(c1.insts@, w) == st,
                            } by {
                            let a0 = c0.at(w);
                            let a1 = c1.at(w);
                        }
                    }
                }
                if child <= self.region || child >= self.regions.len() {
                    return Err(CompileFailure::InvalidArtifact);
                }
                if let Err(e) = self.emit_nested_call(code, child, boundary, argc, has_this, depth) {
                    return Err(e);
                }
                let ghost c2 = *code;
                if let Err(e) = self.settle(code, op, boundary) {
                    return Err(e);
                }
                proof {
                    assert(settle_code(*self, op, boundary, c2.insts@, code.insts@)) by {
                        assert forall|w: World|
                            match #[trigger] status(c2.insts@, w) {
                                Status::Run(s) => turned(
                                    status(code.insts@, w),
                                    s,
                                    c2.insts@.len() as int,
                                    settled(*self, self.addresses(s), s.trace, op, boundary, w),
                                ),
                                st => status(code.insts@, w) == st,
                            } by {
                            let a0 = c2.at(w);
                            let a1 = code.at(w);
                        }
                    }
                }
                return Ok(());
            }
        }
        self.emit_step(code, op, boundary, depth)
    }

    /// Emits a call of an inlined callee.
    #[verifier::rlimit(40)]
    fn emit_nested_call(
        &self,
        code: &mut Code,
        child: usize,
        boundary: InlineBoundary,
        argc: u16,
        has_this: bool,
        depth: usize,
    ) -> (r: Result<(), CompileFailure>)
        requires
            self.wf(old(code).len()),
            regions_wf(self.regions@),
            self.region < child < self.regions@.len(),
            depth <= 0xffff,
            call_base(argc, has_this, depth as int) >= 0,
        ensures
            kept(*old(code), *final(code)),
            r is Ok && self.typed(*old(code)) ==> steady(*old(code), *final(code)),
            r is Ok <==> child_ok(
                self.offers(),
                self.regions@,
                self.region as int,
                child as int,
                boundary,
                has_this,
            ),
            r is Err ==> r == Err::<(), CompileFailure>(CompileFailure::InvalidArtifact),
            r is Ok ==> old(code).len() <= final(code).len() && nested_call(
                *self,
                child,
                boundary,
                argc,
                has_this,
                depth as int,
                old(code).insts@,
                final(code).insts@,
            ),
        decreases self.regions@.len() - child, 4int,
    {
        proof {
            reveal(InlineFrame::typed);
        }
        let region = &self.regions[child];
        let expected = if has_this {
            InlineCallKind::Method
        } else {
            InlineCallKind::Call
        };
        if region.call_kind != expected || region.call_pc != boundary.pc || region.resume_pc != boundary.next_pc
            || region.blocks.len() == 0 || region.blocks.len() > MAX_INLINE_BLOCKS {
            return Err(CompileFailure::InvalidArtifact);
        }
        let output = match self.enter_child(code, region, boundary, argc, has_this, depth) {
            Ok(output) => output,
            Err(e) => {
                return Err(e);
            },
        };
        let ghost c1 = *code;
        let ids = open_frame(code, self.root.abi, output);
        let ghost c2 = *code;
        let inner = InlineFrame { root: self.root, api: self.api, regions: self.regions, region: child, ids };
        let function: usize = depth - argc as usize - 1;
        if let Err(e) = inner.admit_frame(code, self.ids.stack, function) {
            return Err(e);
        }
        let ghost c3 = *code;
        let continuation = code.new_block();
        let ghost c4 = *code;
        proof {
            assert(child_entered(
                *self,
                child,
                ids,
                boundary,
                argc,
                has_this,
                depth as int,
                old(code).insts@,
                c4.insts@,
            )) by {
                assert forall|w: World|
                    match #[trigger] status(old(code).insts@, w) {
                        Status::Run(s) => {
                            let a = self.addresses(s);
                            let e = entering(
                                *self,
                                a,
                                self.regions@[child as int],
                                s.trace,
                                boundary,
                                argc,
                                has_this,
                                depth as int,
                                w,
                            );
                            if e.turn.end is On {
                                let o = opened(*self.root.abi, e.turn.trace, e.output, w);
                                let within = InlineAddresses {
                                    frame: o.frame,
                                    arguments: o.arguments,
                                    locals: o.locals,
                                    stack: o.stack,
                                    ..a
                                };
                                let turn = admitted(
                                    inner,
                                    within,
                                    a.stack,
                                    call_function(argc, has_this, depth as int),
                                    o.trace,
                                    w,
                                );
                                &&& turned(status(c4.insts@, w), s, old(code).len(), turn)
                                &&& turn.end is On ==> inner.addresses(status(c4.insts@, w)->Run_0) == within
                            } else {
                                turned(status(c4.insts@, w), s, old(code).len(), e.turn)
                            }
                        },
                        st => status(c4.insts@, w) == st,
                    } by {
                    let a0 = old(code).at(w);
                    let a1 = c1.at(w);
                    let a2 = c2.at(w);
                    let a3 = c3.at(w);
                    let a4 = c4.at(w);
                }
            }
        }
        if let Err(e) = inner.emit_body(code, continuation) {
            return Err(e);
        }
        let ghost c5 = *code;
        let _ = code.push(Inst::Switch { block: continuation });
        let ghost c6 = *code;
        // The callee's frame is gone: the frame around it is checked before
        // its code goes on.
        if let Err(e) = self.check(code, boundary.next_pc) {
            return Err(e);
        }
        proof {
            assert(child_left(*self, continuation, boundary.next_pc, c5.insts@, code.insts@)) by {
                assert forall|w: World|
                    match step(
                        #[trigger] status(c5.insts@, w),
                        Inst::Switch { block: continuation },
                        c5.insts@.len() as int,
                        w,
                    ) {
                        Status::Run(s) => turned(
                            status(code.insts@, w),
                            s,
                            (c5.insts@.len() + 1) as int,
                            checked(*self, self.addresses(s), s.trace, boundary.next_pc, w),
                        ),
                        st => status(code.insts@, w) == st,
                    } by {
                    let a5 = c5.at(w);
                    let a6 = c6.at(w);
                    let a7 = code.at(w);
                }
            }
            assert(inner == child_frame(*self, child, ids));
        }
        Ok(())
    }
}

/// An instruction that does not end its block can be emitted.
pub open spec fn instruction_ok(
    o: Offers,
    regions: Seq<FrameRegion>,
    r: int,
    op: InlineOp,
    boundary: InlineBoundary,
    depth: int,
) -> bool {
    &&& op matches InlineOp::Call { argc, has_this } ==> call_base(argc, has_this, depth) >= 0
    &&& settle_offered(o, op)
    &&& match (op, child_at(regions[r], boundary.pc)) {
        (InlineOp::Call { has_this, .. }, Some(c)) => child_ok(
            o,
            regions,
            r,
            regions[r].children@[c].region as int,
            boundary,
            has_this,
        ),
        _ => work_offered(o, op),
    }
}

} // verus!
