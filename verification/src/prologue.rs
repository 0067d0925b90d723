//! The code before the first block: the frame is opened, its slots are read,
//! and the function's entry is checked.
use crate::checks::read;
use crate::checks::seen;
use crate::code::value;
use crate::code::wrap;
use crate::code::kept;
use crate::code::kept_instructions;
use crate::code::Code;
use crate::code::ConvertOp;
use crate::code::Event;
use crate::code::Inst;
use crate::code::Status;
use crate::code::Ty;
use crate::code::World;
use crate::control::CompileFailure;
use crate::entry_guards::POLL_INTERVAL;
use crate::frame::runs_on;
use crate::frame::RuntimeAbi;
use crate::frame::MAX_SLOTS;
use crate::ir::FrameSlot;
use crate::ir::OptimizedIr;
use crate::ir::ScalarValue;
use crate::lower_values::opt_define;
use crate::lower_values::opt_load;
use crate::lower_values::opt_use;
use crate::lower_values::pair_loads;
use crate::lower_values::vars_after;
use crate::lower_values::OptPair;
use crate::lower_values::OptVars;
use crate::qjs::JS_TAG_UNDEFINED;
use crate::runtime::first_at;
use crate::runtime::first_at_is;
use crate::runtime::first_at_none;
use crate::scalar::PhiEdge;
use std::collections::BTreeMap;
use crate::typing::steady;
use crate::typing::closing;
use crate::typing::calm;
use crate::assemble::Known;
use crate::frame_typing::pair_held;
use crate::frame_typing::slot_named;
use crate::frame_typing::slots_named;
use crate::frame_typing::cached_named;
use crate::frame_typing::cache_named;
use crate::frame_typing::phis_named;
use crate::clif::Passed;
use crate::typing::live;
use crate::typing::appended;
use crate::typing::nothing_written;
use crate::typing::opened;
use vstd::prelude::*;

verus! {

broadcast use {
    vstd::std_specs::btree::group_btree_axioms,
    crate::typing::group_typing,
    crate::frame_typing::group_frame,
};

/// The frame's addresses, as positions in the code.
#[derive(Clone, Copy, Debug, PartialEq, Eq, Structural)]
pub struct FrameIds {
    pub sret: usize,
    pub frame: usize,
    pub arg_buf: usize,
    pub var_buf: usize,
    pub stack_base: usize,
}

/// The frame's buffers were found.
pub open spec fn frame_opened(abi: RuntimeAbi, ids: FrameIds, code: Code) -> bool {
    &&& ids.sret < code.len()
    &&& ids.frame < code.len()
    &&& ids.arg_buf < code.len()
    &&& ids.var_buf < code.len()
    &&& ids.stack_base < code.len()
    &&& forall|w: World|
        #![trigger code.at(w)]
        {
            let frame = w.params[1];
            let t1 = read(Seq::empty(), Ty::I64, frame + abi.arg_buf, w);
            let t2 = read(t1, Ty::I64, frame + abi.var_buf, w);
            &&& code.at(w) matches Status::Run(s)
            &&& code.at(w)->Run_0.vars == Map::<int, int>::empty()
            &&& code.at(w)->Run_0.trace == read(t2, Ty::I64, frame + abi.stack_base, w)
            &&& value(code.at(w), ids.sret) == w.params[0]
            &&& value(code.at(w), ids.frame) == frame
            &&& value(code.at(w), ids.arg_buf) == seen(Seq::empty(), Ty::I64, w)
            &&& value(code.at(w), ids.var_buf) == seen(t1, Ty::I64, w)
            &&& value(code.at(w), ids.stack_base) == seen(t2, Ty::I64, w)
        }
}

/// How a compiled function is called: with the address where its exit is
/// recorded, and its frame.
pub open spec fn machine_params() -> Seq<Passed> {
    seq![Passed::StructReturn, Passed::Plain(Ty::I64)]
}

/// Opens the frame: where the exit is recorded comes first, then the frame.
pub fn open_frame(abi: &RuntimeAbi) -> (r: (Code, FrameIds))
    ensures
        frame_opened(*abi, r.1, r.0),
        live(r.0, machine_params()),
        r.0.holds(r.1.sret, Ty::I64),
        r.0.holds(r.1.frame, Ty::I64),
        r.0.holds(r.1.arg_buf, Ty::I64),
        r.0.holds(r.1.var_buf, Ty::I64),
        r.0.holds(r.1.stack_base, Ty::I64),
{
    let mut code = Code::new();
    proof {
        reveal(appended);
        nothing_written(code, machine_params());
    }
    let sret = code.param(0, Ty::I64);
    let frame = code.param(1, Ty::I64);
    proof {
        opened(code, machine_params());
    }
    let arg_buf = code.load(Ty::I64, frame, abi.arg_buf);
    let var_buf = code.load(Ty::I64, frame, abi.var_buf);
    let stack_base = code.load(Ty::I64, frame, abi.stack_base);
    (code, FrameIds { sret, frame, arg_buf, var_buf, stack_base })
}

/// Code that only declares things does nothing.
pub open spec fn declared(a: Code, b: Code) -> bool {
    a.len() <= b.len() && forall|w: World| #[trigger] b.at(w) == a.at(w)
}

/// A slot has two variables of its own, made between two points of the code.
pub open spec fn pair_declared(v: OptVars, payload_type: Ty, lo: int, hi: int, insts: Seq<Inst>) -> bool {
    &&& lo <= v.payload < v.tag < hi <= insts.len()
    &&& insts[v.payload as int] == (Inst::NewVariable { ty: payload_type })
    &&& insts[v.tag as int] == (Inst::NewVariable { ty: Ty::I64 })
}

/// So has every slot of a list, and no two share one.
pub open spec fn slots_declared(slots: Seq<OptVars>, payload_type: Ty, lo: int, hi: int, insts: Seq<Inst>) -> bool {
    &&& forall|i: int| 0 <= i < slots.len() ==> pair_declared(#[trigger] slots[i], payload_type, lo, hi, insts)
    &&& forall|i: int, j: int| 0 <= i < j < slots.len() ==> (#[trigger] slots[i]).tag < (#[trigger] slots[j]).payload
}

/// Declares the variables of `count` slots.
pub fn declare_slots(code: &mut Code, count: usize, payload_type: Ty) -> (r: Vec<OptVars>)
    ensures
        kept(*old(code), *final(code)),
        steady(*old(code), *final(code)),
        r@.len() == count,
        declared(*old(code), *final(code)),
        slots_declared(r@, payload_type, old(code).len(), final(code).len(), final(code).insts@),
{
    let mut slots: Vec<OptVars> = Vec::new();
    while slots.len() < count
        invariant
            kept(*old(code), *code),
            steady(*old(code), *code),
            slots@.len() <= count,
            declared(*old(code), *code),
            slots_declared(slots@, payload_type, old(code).len(), code.len(), code.insts@),
        decreases count - slots@.len(),
    {
        let ghost c0 = *code;
        let payload = code.new_variable(payload_type);
        let ghost c1 = *code;
        let tag = code.new_variable(Ty::I64);
        proof {
            kept_instructions(c0, c1);
            kept_instructions(c1, *code);
        }
        slots.push(OptVars { payload, tag });
    }
    slots
}

/// Every value that enters a block has variables.
pub open spec fn phis_declared(ir: OptimizedIr, phis: Map<usize, OptVars>, n: int) -> bool {
    forall|b: int, k: int|
        #![trigger ir.blocks@[b].inputs@[k]]
        0 <= b < n && 0 <= k < ir.blocks@[b].inputs@.len() ==> phis.contains_key(ir.blocks@[b].inputs@[k].1)
}

/// The variables were made between two points of the code, and no two values
/// share one.
pub open spec fn phis_apart(phis: Map<usize, OptVars>, payload_type: Ty, lo: int, hi: int, insts: Seq<Inst>) -> bool {
    &&& forall|id: usize| #[trigger] phis.contains_key(id) ==> pair_declared(phis[id], payload_type, lo, hi, insts)
    &&& forall|a: usize, b: usize| #[trigger]
        phis.contains_key(a) && #[trigger] phis.contains_key(b) && a != b ==> phis[a].tag < phis[b].payload
            || phis[b].tag < phis[a].payload
}

/// Declares the variables of the values that enter the blocks.
pub fn declare_phis(code: &mut Code, ir: &OptimizedIr, payload_type: Ty) -> (r: BTreeMap<usize, OptVars>)
    ensures
        kept(*old(code), *final(code)),
        steady(*old(code), *final(code)),
        declared(*old(code), *final(code)),
        phis_declared(*ir, r@, ir.blocks@.len() as int),
        phis_apart(r@, payload_type, old(code).len(), final(code).len(), final(code).insts@),
{
    let mut phis: BTreeMap<usize, OptVars> = BTreeMap::new();
    let mut b: usize = 0;
    while b < ir.blocks.len()
        invariant
            kept(*old(code), *code),
            steady(*old(code), *code),
            b <= ir.blocks@.len(),
            declared(*old(code), *code),
            phis_declared(*ir, phis@, b as int),
            phis_apart(phis@, payload_type, old(code).len(), code.len(), code.insts@),
        decreases ir.blocks@.len() - b,
    {
        let inputs = &ir.blocks[b].inputs;
        let mut k: usize = 0;
        while k < inputs.len()
            invariant
                kept(*old(code), *code),
                steady(*old(code), *code),
                b < ir.blocks@.len(),
                inputs@ == ir.blocks@[b as int].inputs@,
                k <= inputs@.len(),
                declared(*old(code), *code),
                phis_declared(*ir, phis@, b as int),
                forall|j: int| 0 <= j < k ==> phis@.contains_key((#[trigger] inputs@[j]).1),
                phis_apart(phis@, payload_type, old(code).len(), code.len(), code.insts@),
            decreases inputs@.len() - k,
        {
            let ghost c0 = *code;
            let ghost phis0 = phis@;
            let payload = code.new_variable(payload_type);
            let ghost c1 = *code;
            let tag = code.new_variable(Ty::I64);
            phis.insert(inputs[k].1, OptVars { payload, tag });
            proof {
                kept_instructions(c0, c1);
                kept_instructions(c1, *code);
                assert forall|id: usize| #[trigger] phis@.contains_key(id) implies pair_declared(
                    phis@[id],
                    payload_type,
                    old(code).len(),
                    code.len(),
                    code.insts@,
                ) by {
                    if id != inputs@[k as int].1 {
                        assert(phis0.contains_key(id));
                    }
                }
                assert forall|x: usize, y: usize| #[trigger]
                    phis@.contains_key(x) && #[trigger] phis@.contains_key(y) && x != y implies phis@[x].tag
                    < phis@[y].payload || phis@[y].tag < phis@[x].payload by {
                    let id = inputs@[k as int].1;
                    if x != id {
                        assert(phis0.contains_key(x));
                    }
                    if y != id {
                        assert(phis0.contains_key(y));
                    }
                }
            }
            k = k + 1;
        }
        assert forall|c: int, j: int|
            #![trigger ir.blocks@[c].inputs@[j]]
            0 <= c < b + 1 && 0 <= j < ir.blocks@[c].inputs@.len() implies phis@.contains_key(ir.blocks@[c].inputs@[j].1) by {
            if c == b {
                assert(inputs@[j] == ir.blocks@[c].inputs@[j]);
            }
        }
        b = b + 1;
    }
    phis
}

/// The blocks of the code, by program counter: one for every block, and no
/// other.
pub open spec fn blocks_declared(ir: OptimizedIr, blocks: Map<u32, usize>, k: int) -> bool {
    &&& forall|b: int| 0 <= b < k ==> blocks.contains_key((#[trigger] ir.blocks@[b]).start_pc)
    &&& forall|pc: u32| #[trigger]
        blocks.contains_key(pc) ==> exists|b: int| 0 <= b < k && (#[trigger] ir.blocks@[b]).start_pc == pc
}

/// The blocks were made between two points of the code, and no two program
/// counters share one.
pub open spec fn blocks_apart(blocks: Map<u32, usize>, lo: int, hi: int, insts: Seq<Inst>) -> bool {
    &&& hi <= insts.len()
    &&& forall|pc: u32| #[trigger]
        blocks.contains_key(pc) ==> lo <= blocks[pc] < hi && insts[blocks[pc] as int] == (Inst::NewBlock { cold: false })
    &&& forall|a: u32, b: u32| #[trigger]
        blocks.contains_key(a) && #[trigger] blocks.contains_key(b) && a != b ==> blocks[a] != blocks[b]
}

pub fn declare_blocks(code: &mut Code, ir: &OptimizedIr) -> (r: BTreeMap<u32, usize>)
    ensures
        kept(*old(code), *final(code)),
        forall|pc: u32| #[trigger] r@.contains_key(pc) ==> final(code).unstarted(r@[pc] as int),
        steady(*old(code), *final(code)),
        declared(*old(code), *final(code)),
        blocks_declared(*ir, r@, ir.blocks@.len() as int),
        blocks_apart(r@, old(code).len(), final(code).len(), final(code).insts@),
{
    let mut blocks: BTreeMap<u32, usize> = BTreeMap::new();
    let mut b: usize = 0;
    while b < ir.blocks.len()
        invariant
            kept(*old(code), *code),
            forall|pc: u32| #[trigger] blocks@.contains_key(pc) ==> code.unstarted(blocks@[pc] as int),
            steady(*old(code), *code),
            b <= ir.blocks@.len(),
            declared(*old(code), *code),
            blocks_declared(*ir, blocks@, b as int),
            blocks_apart(blocks@, old(code).len(), code.len(), code.insts@),
        decreases ir.blocks@.len() - b,
    {
        let ghost c0 = *code;
        let ghost blocks0 = blocks@;
        let native = code.new_block();
        blocks.insert(ir.blocks[b].start_pc, native);
        proof {
            let own = ir.blocks@[b as int].start_pc;
            assert forall|pc: u32| #[trigger] blocks@.contains_key(pc) implies old(code).len() <= blocks@[pc] < code.len()
                && code.insts@[blocks@[pc] as int] == (Inst::NewBlock { cold: false }) by {
                if pc != own {
                    assert(blocks0.contains_key(pc));
                }
            }
            assert forall|pc: u32| #[trigger] blocks@.contains_key(pc) implies code.unstarted(blocks@[pc] as int) by {
                if pc != own {
                    assert(blocks0.contains_key(pc));
                    assert(c0.unstarted(blocks0[pc] as int));
                }
            }
            assert forall|x: u32, y: u32| #[trigger]
                blocks@.contains_key(x) && #[trigger] blocks@.contains_key(y) && x != y implies blocks@[x] != blocks@[y] by {
                if x != own {
                    assert(blocks0.contains_key(x));
                }
                if y != own {
                    assert(blocks0.contains_key(y));
                }
            }
            assert forall|pc: u32| #[trigger] blocks@.contains_key(pc) implies exists|c: int|
                0 <= c < b + 1 && (#[trigger] ir.blocks@[c]).start_pc == pc by {
                if pc == own {
                    assert(ir.blocks@[b as int].start_pc == pc);
                } else {
                    assert(blocks0.contains_key(pc));
                }
            }
        }
        b = b + 1;
    }
    blocks
}

/// The iterations until the first poll are counted.
pub open spec fn budget_filled(budget: usize, a: Code, b: Code) -> bool {
    &&& a.len() <= b.len()
    &&& forall|w: World|
        #![trigger b.at(w)]
        match a.at(w) {
            Status::Run(s) => runs_on(
                b.at(w),
                s,
                a.len(),
                s.vars,
                s.trace.push(
                    Event::SlotStore { ty: Ty::I64, slot: budget as int, offset: 0, value: POLL_INTERVAL as int },
                ),
            ),
            st => b.at(w) == st,
        }
}

pub fn fill_budget(code: &mut Code, budget: usize)
    ensures
        kept(*old(code), *final(code)),
        old(code).slotted(budget) ==> steady(*old(code), *final(code)),
        budget_filled(budget, *old(code), *final(code)),
{
    let ghost c0 = *code;
    let full = code.iconst(Ty::I64, POLL_INTERVAL);
    let ghost c1 = *code;
    code.slot_store(Ty::I64, full, budget, 0);
    proof {
        assert forall|w: World| #[trigger] code.at(w) == code.at(w) by {
            let a = c1.at(w);
        }
    }
}

/// The slots as they lie in a buffer; in the raw-i32 shape a payload is the low
/// half of what lies there.
pub struct Slots {
    pub vars: Map<int, int>,
    pub trace: Seq<Event>,
}

pub open spec fn buffer_read(int32_loop: bool, vars: Map<int, int>, trace: Seq<Event>, base: int, slots: Seq<OptVars>, k: nat, w: World) -> Slots
    decreases k,
{
    if k == 0 {
        Slots { vars, trace }
    } else {
        let before = buffer_read(int32_loop, vars, trace, base, slots, (k - 1) as nat, w);
        let payload = wrap(Ty::I64, (w.observe)(before.trace.len() as int));
        let tag = wrap(Ty::I64, (w.observe)(before.trace.len() + 1int));
        Slots {
            vars: vars_after(
                before.vars,
                slots[k - 1],
                if int32_loop {
                    wrap(Ty::I32, payload)
                } else {
                    payload
                },
                tag,
            ),
            trace: pair_loads(before.trace, base + (k - 1) * 16, payload, tag),
        }
    }
}

pub open spec fn slots_read(int32_loop: bool, base: usize, slots: Seq<OptVars>, k: nat, a: Code, b: Code) -> bool {
    &&& a.len() <= b.len()
    &&& forall|w: World|
        #![trigger b.at(w)]
        match a.at(w) {
            Status::Run(s) => {
                let r = buffer_read(int32_loop, s.vars, s.trace, s.vals[base as int], slots, k, w);
                runs_on(b.at(w), s, a.len(), r.vars, r.trace)
            },
            st => b.at(w) == st,
        }
}

/// Reads slots from a buffer of tagged values.
pub fn read_slots(code: &mut Code, int32_loop: bool, base: usize, slots: &Vec<OptVars>)
    requires
        base < old(code).len(),
        slots@.len() < MAX_SLOTS,
    ensures
        kept(*old(code), *final(code)),
        old(code).holds(base, Ty::I64)
            && slots_named(*old(code), slots@, if int32_loop { Ty::I32 } else { Ty::I64 })
            ==> steady(*old(code), *final(code)),
        slots_read(int32_loop, base, slots@, slots@.len(), *old(code), *final(code)),
{
    let ghost c0 = *code;
    let mut k: usize = 0;
    while k < slots.len()
        invariant
            kept(*old(code), *code),
            old(code).holds(base, Ty::I64)
                && slots_named(*old(code), slots@, if int32_loop { Ty::I32 } else { Ty::I64 })
                ==> steady(*old(code), *code),
            c0 == *old(code),
            k <= slots@.len() < MAX_SLOTS,
            base < c0.len(),
            slots_read(int32_loop, base, slots@, k as nat, c0, *code),
        decreases slots@.len() - k,
    {
        let ghost c1 = *code;
        let loaded = opt_load(code, base, k);
        let ghost c2 = *code;
        let payload: usize = if int32_loop {
            code.convert(ConvertOp::Reduce, Ty::I64, Ty::I32, loaded.payload)
        } else {
            loaded.payload
        };
        let ghost c3 = *code;
        opt_define(code, slots[k], OptPair { payload, tag: loaded.tag });
        proof {
            assert forall|w: World|
                #![trigger code.at(w)]
                match c0.at(w) {
                    Status::Run(s) => {
                        let r = buffer_read(
                            int32_loop,
                            s.vars,
                            s.trace,
                            s.vals[base as int],
                            slots@,
                            (k + 1) as nat,
                            w,
                        );
                        runs_on(code.at(w), s, c0.len(), r.vars, r.trace)
                    },
                    st => code.at(w) == st,
                } by {
                let a = c1.at(w);
                let b = c2.at(w);
                let c = c3.at(w);
            }
        }
        k = k + 1;
    }
}

/// The slots are undefined.
pub open spec fn cleared_vars(vars: Map<int, int>, slots: Seq<OptVars>, k: nat) -> Map<int, int>
    decreases k,
{
    if k == 0 {
        vars
    } else {
        vars_after(cleared_vars(vars, slots, (k - 1) as nat), slots[k - 1], 0, JS_TAG_UNDEFINED as int)
    }
}

pub open spec fn slots_cleared(slots: Seq<OptVars>, k: nat, a: Code, b: Code) -> bool {
    &&& a.len() <= b.len()
    &&& forall|w: World|
        #![trigger b.at(w)]
        match a.at(w) {
            Status::Run(s) => runs_on(b.at(w), s, a.len(), cleared_vars(s.vars, slots, k), s.trace),
            st => b.at(w) == st,
        }
}

/// Makes slots undefined.
pub fn clear_slots(code: &mut Code, slots: &Vec<OptVars>, payload_type: Ty)
    ensures
        kept(*old(code), *final(code)),
        slots_named(*old(code), slots@, payload_type) && (payload_type == Ty::I32 || payload_type == Ty::I64)
            ==> steady(*old(code), *final(code)),
        slots_cleared(slots@, slots@.len(), *old(code), *final(code)),
{
    let ghost c0 = *code;
    let payload = code.iconst(payload_type, 0);
    let tag = code.iconst(Ty::I64, JS_TAG_UNDEFINED as i64);
    let ghost c1 = *code;
    let mut k: usize = 0;
    while k < slots.len()
        invariant
            kept(*old(code), *code),
            slots_named(*old(code), slots@, payload_type)
                && (payload_type == Ty::I32 || payload_type == Ty::I64)
                ==> steady(*old(code), *code),
            c1.kind(payload as int) == Known::Value(payload_type),
            c1.kind(tag as int) == Known::Value(Ty::I64),
            kept(c1, *code),
            payload < c1.len() && tag < c1.len(),
            k <= slots@.len(),
            c0.len() <= c1.len() <= code.len(),
            payload < c1.len(),
            tag < c1.len(),
            forall|w: World|
                #![trigger c1.at(w)]
                match c0.at(w) {
                    Status::Run(s) => runs_on(c1.at(w), s, c0.len(), s.vars, s.trace) && value(c1.at(w), payload) == 0 && value(
                        c1.at(w),
                        tag,
                    ) == JS_TAG_UNDEFINED,
                    st => c1.at(w) == st,
                },
            forall|w: World|
                #![trigger code.at(w)]
                match c1.at(w) {
                    Status::Run(s) => c0.at(w) is Run && runs_on(
                        code.at(w),
                        s,
                        c1.len(),
                        cleared_vars(s.vars, slots@, k as nat),
                        s.trace,
                    ),
                    st => code.at(w) == st,
                },
        decreases slots@.len() - k,
    {
        let ghost c2 = *code;
        opt_define(code, slots[k], OptPair { payload, tag });
        proof {
            assert forall|w: World|
                #![trigger code.at(w)]
                match c1.at(w) {
                    Status::Run(s) => c0.at(w) is Run && runs_on(
                        code.at(w),
                        s,
                        c1.len(),
                        cleared_vars(s.vars, slots@, (k + 1) as nat),
                        s.trace,
                    ),
                    st => code.at(w) == st,
                } by {
                let a = c2.at(w);
                let b = c1.at(w);
                let c = c0.at(w);
            }
        }
        k = k + 1;
    }
    proof {
        assert forall|w: World|
            #![trigger code.at(w)]
            match c0.at(w) {
                Status::Run(s) => runs_on(code.at(w), s, c0.len(), cleared_vars(s.vars, slots@, slots@.len()), s.trace),
                st => code.at(w) == st,
            } by {
            let a = c1.at(w);
        }
    }
}

/// The value that a value of the first block begins as: where several edges
/// meet there, the one from the function's entry.
pub open spec fn initial_value(ir: OptimizedIr, edges: Seq<PhiEdge>, id: usize) -> Option<usize> {
    if id < ir.values@.len() && ir.values@[id as int] is Phi {
        match first_at(|i: int| edges[i].target == id && edges[i].predecessor is None, edges.len()) {
            Some(i) => Some(edges[i].source),
            None => None,
        }
    } else {
        Some(id)
    }
}

/// The argument or local that a value of the first block begins as.
pub open spec fn initial_slot(ir: OptimizedIr, edges: Seq<PhiEdge>, arguments: Seq<OptVars>, locals: Seq<OptVars>, id: usize) -> Option<OptVars> {
    match initial_value(ir, edges, id) {
        Some(initial) => if initial < ir.values@.len() {
            match ir.values@[initial as int] {
                ScalarValue::Input { block_pc, slot } => if block_pc != 0 {
                    None
                } else {
                    match slot {
                        FrameSlot::Argument(index) => if index < arguments.len() {
                            Some(arguments[index as int])
                        } else {
                            None
                        },
                        FrameSlot::Local(index) => if index < locals.len() {
                            Some(locals[index as int])
                        } else {
                            None
                        },
                        FrameSlot::Stack(_) => None,
                    }
                },
                _ => None,
            }
        } else {
            None
        },
        None => None,
    }
}

fn find_initial(ir: &OptimizedIr, edges: &Vec<PhiEdge>, id: usize) -> (r: Option<usize>)
    ensures
        r == initial_value(*ir, edges@, id),
{
    if id < ir.values.len() && matches!(&ir.values[id], ScalarValue::Phi { .. }) {
        let ghost f = |i: int| edges@[i].target == id && edges@[i].predecessor is None;
        let mut i: usize = 0;
        while i < edges.len()
            invariant
                i <= edges@.len(),
                f == (|i: int| edges@[i].target == id && edges@[i].predecessor is None),
                forall|k: int| 0 <= k < i ==> !#[trigger] f(k),
                id < ir.values@.len() && ir.values@[id as int] is Phi,
            decreases edges@.len() - i,
        {
            if edges[i].target == id && edges[i].predecessor.is_none() {
                proof {
                    assert(f(i as int));
                    first_at_is(f, edges@.len(), i as int);
                }
                return Some(edges[i].source);
            }
            assert(!f(i as int));
            i = i + 1;
        }
        proof {
            first_at_none(f, edges@.len());
        }
        None
    } else {
        Some(id)
    }
}

fn find_initial_slot(ir: &OptimizedIr, edges: &Vec<PhiEdge>, arguments: &Vec<OptVars>, locals: &Vec<OptVars>, id: usize) -> (r: Option<
    OptVars,
>)
    ensures
        r == initial_slot(*ir, edges@, arguments@, locals@, id),
{
    let initial = match find_initial(ir, edges, id) {
        Some(initial) => initial,
        None => {
            return None;
        },
    };
    if initial >= ir.values.len() {
        return None;
    }
    match &ir.values[initial] {
        ScalarValue::Input { block_pc, slot } => {
            if *block_pc != 0 {
                return None;
            }
            match slot {
                FrameSlot::Argument(index) => if (*index as usize) < arguments.len() {
                    Some(arguments[*index as usize])
                } else {
                    None
                },
                FrameSlot::Local(index) => if (*index as usize) < locals.len() {
                    Some(locals[*index as usize])
                } else {
                    None
                },
                FrameSlot::Stack(_) => None,
            }
        },
        _ => None,
    }
}

/// What the first `k` values of the first block begin as.
pub open spec fn initial_vars(
    ir: OptimizedIr,
    edges: Seq<PhiEdge>,
    phis: Map<usize, OptVars>,
    arguments: Seq<OptVars>,
    locals: Seq<OptVars>,
    inputs: Seq<(FrameSlot, usize)>,
    vars: Map<int, int>,
    k: nat,
) -> Map<int, int>
    decreases k,
{
    if k == 0 {
        vars
    } else {
        let before = initial_vars(ir, edges, phis, arguments, locals, inputs, vars, (k - 1) as nat);
        let from = initial_slot(ir, edges, arguments, locals, inputs[k - 1].1)->Some_0;
        vars_after(before, phis[inputs[k - 1].1], before[from.payload as int], before[from.tag as int])
    }
}

pub open spec fn initials_fit(
    ir: OptimizedIr,
    edges: Seq<PhiEdge>,
    phis: Map<usize, OptVars>,
    arguments: Seq<OptVars>,
    locals: Seq<OptVars>,
    inputs: Seq<(FrameSlot, usize)>,
    k: int,
) -> bool {
    forall|j: int|
        0 <= j < k ==> initial_slot(ir, edges, arguments, locals, (#[trigger] inputs[j]).1) is Some && phis.contains_key(
            inputs[j].1,
        )
}

pub open spec fn initials_set(
    ir: OptimizedIr,
    edges: Seq<PhiEdge>,
    phis: Map<usize, OptVars>,
    arguments: Seq<OptVars>,
    locals: Seq<OptVars>,
    inputs: Seq<(FrameSlot, usize)>,
    k: nat,
    a: Code,
    b: Code,
) -> bool {
    &&& a.len() <= b.len()
    &&& forall|w: World|
        #![trigger b.at(w)]
        match a.at(w) {
            Status::Run(s) => runs_on(
                b.at(w),
                s,
                a.len(),
                initial_vars(ir, edges, phis, arguments, locals, inputs, s.vars, k),
                s.trace,
            ),
            st => b.at(w) == st,
        }
}

/// Sets the values of the first block to what they begin as.
pub fn set_initials(
    code: &mut Code,
    ir: &OptimizedIr,
    edges: &Vec<PhiEdge>,
    phis: &BTreeMap<usize, OptVars>,
    arguments: &Vec<OptVars>,
    locals: &Vec<OptVars>,
    inputs: &Vec<(FrameSlot, usize)>,
    payload_type: Ty,
) -> (r: Result<(), CompileFailure>)
    ensures
        kept(*old(code), *final(code)),
        r is Ok && slots_named(*old(code), arguments@, payload_type)
            && slots_named(*old(code), locals@, payload_type) && phis_named(*old(code), phis@, payload_type)
            ==> steady(*old(code), *final(code)),
        r is Ok <==> initials_fit(*ir, edges@, phis@, arguments@, locals@, inputs@, inputs@.len() as int),
        r is Err ==> r == Err::<(), CompileFailure>(CompileFailure::InvalidArtifact),
        r is Ok ==> initials_set(
            *ir,
            edges@,
            phis@,
            arguments@,
            locals@,
            inputs@,
            inputs@.len(),
            *old(code),
            *final(code),
        ),
{
    let ghost c0 = *code;
    let mut k: usize = 0;
    while k < inputs.len()
        invariant
            kept(*old(code), *code),
            slots_named(*old(code), arguments@, payload_type) && slots_named(*old(code), locals@, payload_type)
                && phis_named(*old(code), phis@, payload_type)
                ==> steady(*old(code), *code),
            k <= inputs@.len(),
            c0 == *old(code),
            initials_fit(*ir, edges@, phis@, arguments@, locals@, inputs@, k as int),
            initials_set(*ir, edges@, phis@, arguments@, locals@, inputs@, k as nat, c0, *code),
        decreases inputs@.len() - k,
    {
        let ghost c1 = *code;
        let id = inputs[k].1;
        let from = match find_initial_slot(ir, edges, arguments, locals, id) {
            Some(from) => from,
            None => {
                assert(initial_slot(*ir, edges@, arguments@, locals@, inputs@[k as int].1) is None);
                return Err(CompileFailure::InvalidArtifact);
            },
        };
        let phi = match phis.get(&id) {
            Some(phi) => *phi,
            None => {
                assert(!phis@.contains_key(inputs@[k as int].1));
                return Err(CompileFailure::InvalidArtifact);
            },
        };
        let pair = opt_use(code, from, payload_type);
        let ghost c2 = *code;
        opt_define(code, phi, pair);
        proof {
            assert forall|w: World|
                #![trigger code.at(w)]
                match c0.at(w) {
                    Status::Run(s) => runs_on(
                        code.at(w),
                        s,
                        c0.len(),
                        initial_vars(
                            *ir,
                            edges@,
                            phis@,
                            arguments@,
                            locals@,
                            inputs@,
                            s.vars,
                            (k + 1) as nat,
                        ),
                        s.trace,
                    ),
                    st => code.at(w) == st,
                } by {
                let a = c1.at(w);
                let b = c2.at(w);
            }
        }
        k = k + 1;
    }
    Ok(())
}

} // verus!
