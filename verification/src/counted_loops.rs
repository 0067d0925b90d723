//! Increments of loop counters that cannot overflow.
use crate::ir::node_name;
use crate::ir::OptimizedBlock;
use crate::ir::OptimizedIr;
use crate::ir::OptimizedNode;
use crate::ir::OptimizedNodeKind;
use crate::names::has_prefix;
use crate::names::name_is;
use crate::names::name_starts;
use crate::names::opt_local_slot;
use crate::names::spec_local_slot;
use std::collections::BTreeSet;
use vstd::prelude::*;

verus! {

broadcast use vstd::std_specs::btree::group_btree_axioms;

/// Control may pass from block `from` to block `to`.
pub open spec fn edge(ir: OptimizedIr, from: int, to: int) -> bool {
    ir.blocks@[from].successors@.contains(ir.blocks@[to].start_pc)
}

/// A block at or behind the header that branches back to it.
pub open spec fn latch(ir: OptimizedIr, header: int, block: int) -> bool {
    edge(ir, block, header) && ir.blocks@[block].start_pc >= ir.blocks@[header].start_pc
}

/// Block `block` reaches a latch directly or through a member of the loop
/// other than the header.
pub open spec fn joins(ir: OptimizedIr, header: int, members: Set<int>, block: int) -> bool {
    ||| latch(ir, header, block)
    ||| exists|m: int| members.contains(m) && m != header && 0 <= m < ir.blocks@.len() && #[trigger] edge(ir, block, m)
}

pub open spec fn loop_closed(ir: OptimizedIr, header: int, members: Set<int>) -> bool {
    &&& members.contains(header)
    &&& forall|b: int| 0 <= b < ir.blocks@.len() && #[trigger] joins(ir, header, members, b) ==> members.contains(b)
}

/// The natural loop: the header and everything that reaches a latch without
/// passing through the header.
pub open spec fn natural_loop(ir: OptimizedIr, header: int, members: Set<int>) -> bool {
    &&& loop_closed(ir, header, members)
    &&& forall|other: Set<int>| #[trigger] loop_closed(ir, header, other) ==> members.subset_of(other)
    &&& forall|b: int| members.contains(b) ==> 0 <= b < ir.blocks@.len()
}

pub open spec fn is_code(ir: OptimizedIr, id: u32) -> bool {
    id < ir.nodes@.len() && ir.nodes@[id as int].is_bytecode()
}

/// The bytecode nodes of a block, in order.
pub open spec fn code(ir: OptimizedIr, block: OptimizedBlock) -> Seq<u32> {
    block.nodes@.filter(|id: u32| is_code(ir, id))
}

/// The bytecode nodes of a block that are still needed, in order.
pub open spec fn kept_code(ir: OptimizedIr, block: OptimizedBlock) -> Seq<u32> {
    block.nodes@.filter(|id: u32| is_code(ir, id) && !ir.nodes@[id as int].eliminated)
}

pub open spec fn node_at(ir: OptimizedIr, code: Seq<u32>, p: int) -> OptimizedNode {
    ir.nodes@[code[p] as int]
}

pub open spec fn loads_local(node: OptimizedNode) -> Option<usize> {
    if has_prefix(node.name(), "get_loc"@) {
        spec_local_slot(node.name(), node.bytes@)
    } else {
        None
    }
}

/// The block ends with `get_loc k; <operand>; lt; if_false -> outside`.
pub open spec fn header_counter(ir: OptimizedIr, header: int, members: Set<int>) -> Option<usize> {
    let tail = kept_code(ir, ir.blocks@[header]);
    let n = tail.len() as int;
    if n < 4 {
        None
    } else {
        let load = node_at(ir, tail, n - 4);
        let operand = node_at(ir, tail, n - 3);
        let branch = node_at(ir, tail, n - 1);
        if (has_prefix(operand.name(), "get_loc"@) || has_prefix(operand.name(), "get_arg"@) || has_prefix(
            operand.name(),
            "push_"@,
        )) && node_at(ir, tail, n - 2).name() == "lt"@ && has_prefix(branch.name(), "if_false"@) && (
        branch.branch_target matches Some(target) && !targets_member(ir, members, target)) {
            loads_local(load)
        } else {
            None
        }
    }
}

pub open spec fn targets_member(ir: OptimizedIr, members: Set<int>, target: u32) -> bool {
    exists|b: int| 0 <= b < ir.blocks@.len() && members.contains(b) && (#[trigger] ir.blocks@[b]).start_pc == target
}

/// The node writes the local `counter`.
pub open spec fn writes_local(node: OptimizedNode, counter: usize) -> bool {
    let name = node.name();
    &&& has_prefix(name, "put_loc"@) || has_prefix(name, "set_loc"@) || has_prefix(name, "inc_loc"@) || has_prefix(
        name,
        "dec_loc"@,
    ) || has_prefix(name, "add_loc"@)
    &&& spec_local_slot(name, node.bytes@) == Some(counter)
}

/// Position `p` ends `get_loc k; inc|post_inc; put_loc k`.
pub open spec fn ends_increment(ir: OptimizedIr, code: Seq<u32>, p: int, counter: usize) -> bool {
    &&& p >= 2
    &&& has_prefix(node_at(ir, code, p).name(), "put_loc"@)
    &&& node_at(ir, code, p - 1).name() == "inc"@ || node_at(ir, code, p - 1).name() == "post_inc"@
    &&& loads_local(node_at(ir, code, p - 2)) == Some(counter)
}

pub open spec fn write_at(ir: OptimizedIr, counter: usize, b: int, p: int) -> bool {
    &&& 0 <= b < ir.blocks@.len()
    &&& 0 <= p < code(ir, ir.blocks@[b]).len()
    &&& writes_local(node_at(ir, code(ir, ir.blocks@[b]), p), counter)
}

/// The only write to the counter in the loop is the one at `(b, p)`, and it
/// stores the counter's own increment.
pub open spec fn sole_increment(ir: OptimizedIr, members: Set<int>, counter: usize, b: int, p: int) -> bool {
    &&& members.contains(b)
    &&& write_at(ir, counter, b, p)
    &&& ends_increment(ir, code(ir, ir.blocks@[b]), p, counter)
    &&& forall|c: int, q: int| members.contains(c) && #[trigger] write_at(ir, counter, c, q) ==> c == b && q == p
}

/// The increment at `pc` is the only write to the counter of a loop that is
/// left unless the counter is below an Int32: it cannot overflow.
pub open spec fn bounded_by(ir: OptimizedIr, header: int, pc: u32) -> bool {
    &&& ir.blocks@[header].is_loop_header
    &&& exists|members: Set<int>, b: int, p: int|
        #![trigger natural_loop(ir, header, members), write_at(ir, header_counter(ir, header, members)->Some_0, b, p)]
        natural_loop(ir, header, members) && header_counter(ir, header, members) is Some && sole_increment(
            ir,
            members,
            header_counter(ir, header, members)->Some_0,
            b,
            p,
        ) && node_at(ir, code(ir, ir.blocks@[b]), p - 1).pc == pc
}

pub open spec fn bounded_before(ir: OptimizedIr, n: int, pc: u32) -> bool {
    exists|header: int| 0 <= header < n && #[trigger] bounded_by(ir, header, pc)
}

/// A loop has one natural body, so its bounded increment is unique.
pub proof fn natural_loop_is_unique(ir: OptimizedIr, header: int, a: Set<int>, b: Set<int>)
    requires
        natural_loop(ir, header, a),
        natural_loop(ir, header, b),
    ensures
        a == b,
{
    assert(a.subset_of(b));
    assert(b.subset_of(a));
    assert(a =~= b);
}

fn contains_pc(successors: &Vec<u32>, pc: u32) -> (r: bool)
    ensures
        r == successors@.contains(pc),
{
    let mut i: usize = 0;
    while i < successors.len()
        invariant
            i <= successors@.len(),
            forall|k: int| 0 <= k < i ==> successors@[k] != pc,
        decreases successors@.len() - i,
    {
        if successors[i] == pc {
            assert(successors@[i as int] == pc);
            return true;
        }
        i = i + 1;
    }
    false
}

spec fn flagged(flags: Seq<bool>) -> Set<int> {
    Set::new(|b: int| 0 <= b < flags.len() && flags[b])
}

spec fn missing(flags: Seq<bool>) -> nat
    decreases flags.len(),
{
    if flags.len() == 0 {
        0
    } else {
        missing(flags.drop_last()) + if flags.last() {
            0nat
        } else {
            1nat
        }
    }
}

proof fn missing_update(flags: Seq<bool>, i: int)
    requires
        0 <= i < flags.len(),
        !flags[i],
    ensures
        missing(flags.update(i, true)) == missing(flags) - 1,
    decreases flags.len(),
{
    let next = flags.update(i, true);
    if i == flags.len() - 1 {
        assert(next.drop_last() =~= flags.drop_last());
    } else {
        missing_update(flags.drop_last(), i);
        assert(next.drop_last() =~= flags.drop_last().update(i, true));
    }
}

fn block_joins(ir: &OptimizedIr, header: usize, flags: &Vec<bool>, b: usize) -> (r: bool)
    requires
        header < ir.blocks@.len(),
        b < ir.blocks@.len(),
        flags@.len() == ir.blocks@.len(),
    ensures
        r == joins(*ir, header as int, flagged(flags@), b as int),
{
    let block = &ir.blocks[b];
    if contains_pc(&block.successors, ir.blocks[header].start_pc) && block.start_pc >= ir.blocks[header].start_pc {
        return true;
    }
    let mut m: usize = 0;
    while m < ir.blocks.len()
        invariant
            m <= ir.blocks@.len(),
            b < ir.blocks@.len(),
            block == ir.blocks@[b as int],
            flags@.len() == ir.blocks@.len(),
            !latch(*ir, header as int, b as int),
            forall|k: int|
                0 <= k < m && flagged(flags@).contains(k) && k != header ==> !#[trigger] edge(*ir, b as int, k),
        decreases ir.blocks@.len() - m,
    {
        if flags[m] && m != header && contains_pc(&block.successors, ir.blocks[m].start_pc) {
            assert(flagged(flags@).contains(m as int) && edge(*ir, b as int, m as int));
            return true;
        }
        m = m + 1;
    }
    false
}

fn loop_members(ir: &OptimizedIr, header: usize) -> (flags: Vec<bool>)
    requires
        header < ir.blocks@.len(),
    ensures
        flags@.len() == ir.blocks@.len(),
        natural_loop(*ir, header as int, flagged(flags@)),
{
    let n: usize = ir.blocks.len();
    let mut flags: Vec<bool> = Vec::new();
    let mut f: usize = 0;
    while f < n
        invariant
            f <= n,
            flags@.len() == f,
            forall|k: int| 0 <= k < f ==> #[trigger] flags@[k] == (k == header),
        decreases n - f,
    {
        flags.push(f == header);
        f = f + 1;
    }
    loop
        invariant
            n == ir.blocks@.len() == flags@.len(),
            header < n,
            flags@[header as int],
            forall|other: Set<int>| #[trigger]
                loop_closed(*ir, header as int, other) ==> flagged(flags@).subset_of(other),
        ensures
            n == ir.blocks@.len() == flags@.len(),
            flags@[header as int],
            forall|other: Set<int>| #[trigger]
                loop_closed(*ir, header as int, other) ==> flagged(flags@).subset_of(other),
            forall|b: int| 0 <= b < n && #[trigger] joins(*ir, header as int, flagged(flags@), b) ==> flags@[b],
        decreases missing(flags@),
    {
        let ghost start = flags@;
        let mut changed: bool = false;
        let mut b: usize = 0;
        while b < n
            invariant
                n == ir.blocks@.len() == flags@.len() == start.len(),
                b <= n,
                header < n,
                flags@[header as int],
                forall|other: Set<int>| #[trigger]
                    loop_closed(*ir, header as int, other) ==> flagged(flags@).subset_of(other),
                !changed ==> flags@ == start,
                changed ==> missing(flags@) < missing(start),
                !changed ==> forall|c: int|
                    0 <= c < b && #[trigger] joins(*ir, header as int, flagged(flags@), c) ==> flags@[c],
            decreases n - b,
        {
            if !flags[b] && block_joins(ir, header, &flags, b) {
                proof {
                    missing_update(flags@, b as int);
                    let next = flags@.update(b as int, true);
                    assert forall|other: Set<int>| #[trigger] loop_closed(*ir, header as int, other) implies flagged(
                        next,
                    ).subset_of(other) by {
                        let members = flagged(flags@);
                        assert(members.subset_of(other));
                        assert(joins(*ir, header as int, members, b as int));
                        if !latch(*ir, header as int, b as int) {
                            let m = choose|m: int|
                                members.contains(m) && m != header && 0 <= m < ir.blocks@.len() && #[trigger] edge(
                                    *ir,
                                    b as int,
                                    m,
                                );
                            assert(other.contains(m) && edge(*ir, b as int, m));
                        }
                        assert(joins(*ir, header as int, other, b as int));
                        assert(other.contains(b as int));
                        assert forall|x: int| flagged(next).contains(x) implies other.contains(x) by {
                            if x != b {
                                assert(members.contains(x));
                            }
                        }
                    }
                }
                flags.set(b, true);
                changed = true;
            }
            b = b + 1;
        }
        if !changed {
            break;
        }
    }
    flags
}

/// The node ids of a block for which `kept` holds of bytecode nodes.
fn code_ids(ir: &OptimizedIr, block: &OptimizedBlock, only_kept: bool) -> (r: Vec<u32>)
    ensures
        r@ == (if only_kept { kept_code(*ir, *block) } else { code(*ir, *block) }),
        forall|p: int| 0 <= p < r@.len() ==> is_code(*ir, #[trigger] r@[p]),
{
    let ghost f = if only_kept {
        |id: u32| is_code(*ir, id) && !ir.nodes@[id as int].eliminated
    } else {
        |id: u32| is_code(*ir, id)
    };
    let mut r: Vec<u32> = Vec::new();
    let mut i: usize = 0;
    assert(block.nodes@.take(0).filter(f) =~= Seq::<u32>::empty()) by {
        reveal(Seq::filter);
    }
    while i < block.nodes.len()
        invariant
            i <= block.nodes@.len(),
            f == (if only_kept {
                |id: u32| is_code(*ir, id) && !ir.nodes@[id as int].eliminated
            } else {
                |id: u32| is_code(*ir, id)
            }),
            r@ == block.nodes@.take(i as int).filter(f),
            forall|p: int| 0 <= p < r@.len() ==> is_code(*ir, #[trigger] r@[p]),
        decreases block.nodes@.len() - i,
    {
        let id: u32 = block.nodes[i];
        proof {
            assert(block.nodes@.take(i + 1).drop_last() =~= block.nodes@.take(i as int));
            reveal(Seq::filter);
        }
        let keep: bool = (id as usize) < ir.nodes.len() && (match &ir.nodes[id as usize].kind {
            OptimizedNodeKind::Bytecode { .. } => true,
            _ => false,
        }) && !(only_kept && ir.nodes[id as usize].eliminated);
        assert(keep == f(id));
        if keep {
            r.push(id);
        }
        i = i + 1;
    }
    assert(block.nodes@.take(i as int) =~= block.nodes@);
    r
}

fn loaded_local(node: &OptimizedNode) -> (r: Option<usize>)
    ensures
        r == loads_local(*node),
{
    let name: &str = node_name(node);
    if name_starts(name, "get_loc") {
        opt_local_slot(name, node.bytes.as_slice())
    } else {
        None
    }
}

fn is_member_target(ir: &OptimizedIr, flags: &Vec<bool>, target: u32) -> (r: bool)
    requires
        flags@.len() == ir.blocks@.len(),
    ensures
        r == targets_member(*ir, flagged(flags@), target),
{
    let mut b: usize = 0;
    while b < ir.blocks.len()
        invariant
            b <= ir.blocks@.len(),
            flags@.len() == ir.blocks@.len(),
            forall|k: int|
                0 <= k < b && flagged(flags@).contains(k) ==> (#[trigger] ir.blocks@[k]).start_pc != target,
        decreases ir.blocks@.len() - b,
    {
        if flags[b] && ir.blocks[b].start_pc == target {
            assert(flagged(flags@).contains(b as int) && ir.blocks@[b as int].start_pc == target);
            return true;
        }
        b = b + 1;
    }
    false
}

fn counter_of(ir: &OptimizedIr, header: usize, flags: &Vec<bool>) -> (r: Option<usize>)
    requires
        header < ir.blocks@.len(),
        flags@.len() == ir.blocks@.len(),
    ensures
        r == header_counter(*ir, header as int, flagged(flags@)),
{
    let tail = code_ids(ir, &ir.blocks[header], true);
    let n: usize = tail.len();
    if n < 4 {
        return None;
    }
    assert(is_code(*ir, tail@[n - 4]) && is_code(*ir, tail@[n - 3]) && is_code(*ir, tail@[n - 2]) && is_code(*ir, tail@[n - 1]));
    let load = &ir.nodes[tail[n - 4] as usize];
    let operand: &str = node_name(&ir.nodes[tail[n - 3] as usize]);
    let compare: &str = node_name(&ir.nodes[tail[n - 2] as usize]);
    let branch = &ir.nodes[tail[n - 1] as usize];
    let operand_ok: bool = name_starts(operand, "get_loc") || name_starts(operand, "get_arg") || name_starts(operand, "push_");
    let exits: bool = name_starts(node_name(branch), "if_false") && (match branch.branch_target {
        Some(target) => !is_member_target(ir, flags, target),
        None => false,
    });
    if operand_ok && name_is(compare, "lt") && exits {
        loaded_local(load)
    } else {
        None
    }
}

fn node_writes(node: &OptimizedNode, counter: usize) -> (r: bool)
    ensures
        r == writes_local(*node, counter),
{
    let name: &str = node_name(node);
    if name_starts(name, "put_loc") || name_starts(name, "set_loc") || name_starts(name, "inc_loc") || name_starts(
        name,
        "dec_loc",
    ) || name_starts(name, "add_loc") {
        match opt_local_slot(name, node.bytes.as_slice()) {
            Some(slot) => slot == counter,
            None => false,
        }
    } else {
        false
    }
}

fn is_increment(ir: &OptimizedIr, ids: &Vec<u32>, p: usize, counter: usize) -> (r: bool)
    requires
        p < ids@.len(),
        forall|q: int| 0 <= q < ids@.len() ==> is_code(*ir, #[trigger] ids@[q]),
    ensures
        r == ends_increment(*ir, ids@, p as int, counter),
{
    if p < 2 {
        return false;
    }
    assert(is_code(*ir, ids@[p as int]) && is_code(*ir, ids@[p - 1]) && is_code(*ir, ids@[p - 2]));
    let step: &str = node_name(&ir.nodes[ids[p - 1] as usize]);
    name_starts(node_name(&ir.nodes[ids[p] as usize]), "put_loc") && (name_is(step, "inc") || name_is(step, "post_inc")) && (
    match loaded_local(&ir.nodes[ids[p - 2] as usize]) {
        Some(slot) => slot == counter,
        None => false,
    })
}

spec fn seen_before(b: int, p: int, c: int, q: int) -> bool {
    c < b || c == b && q < p
}

/// The program counter of the loop's only write to `counter`, where that is an
/// increment.
fn only_increment(ir: &OptimizedIr, flags: &Vec<bool>, counter: usize) -> (r: Option<u32>)
    requires
        flags@.len() == ir.blocks@.len(),
    ensures
        match r {
            Some(pc) => exists|b: int, p: int| #[trigger]
                sole_increment(*ir, flagged(flags@), counter, b, p) && node_at(*ir, code(*ir, ir.blocks@[b]), p - 1).pc == pc,
            None => forall|b: int, p: int| !#[trigger] sole_increment(*ir, flagged(flags@), counter, b, p),
        },
{
    let ghost members = flagged(flags@);
    let mut found: Option<u32> = None;
    let ghost mut wb: int = 0;
    let ghost mut wp: int = 0;
    let mut b: usize = 0;
    while b < ir.blocks.len()
        invariant
            b <= ir.blocks@.len(),
            flags@.len() == ir.blocks@.len(),
            members == flagged(flags@),
            found is None ==> forall|c: int, q: int|
                members.contains(c) && #[trigger] write_at(*ir, counter, c, q) ==> c >= b,
            found matches Some(pc) ==> {
                &&& members.contains(wb)
                &&& wb < b
                &&& write_at(*ir, counter, wb, wp)
                &&& ends_increment(*ir, code(*ir, ir.blocks@[wb]), wp, counter)
                &&& node_at(*ir, code(*ir, ir.blocks@[wb]), wp - 1).pc == pc
                &&& forall|c: int, q: int|
                    members.contains(c) && #[trigger] write_at(*ir, counter, c, q) && c < b ==> c == wb && q == wp
            },
        decreases ir.blocks@.len() - b,
    {
        if flags[b] {
            let ids = code_ids(ir, &ir.blocks[b], false);
            assert(members.contains(b as int));
            let mut p: usize = 0;
            while p < ids.len()
                invariant
                    b < ir.blocks@.len(),
                    flags@.len() == ir.blocks@.len(),
                    members == flagged(flags@),
                    members.contains(b as int),
                    ids@ == code(*ir, ir.blocks@[b as int]),
                    forall|q: int| 0 <= q < ids@.len() ==> is_code(*ir, #[trigger] ids@[q]),
                    p <= ids@.len(),
                    found is None ==> forall|c: int, q: int|
                        members.contains(c) && #[trigger] write_at(*ir, counter, c, q) ==> !seen_before(
                            b as int,
                            p as int,
                            c,
                            q,
                        ),
                    found matches Some(pc) ==> {
                        &&& members.contains(wb)
                        &&& write_at(*ir, counter, wb, wp)
                        &&& ends_increment(*ir, code(*ir, ir.blocks@[wb]), wp, counter)
                        &&& node_at(*ir, code(*ir, ir.blocks@[wb]), wp - 1).pc == pc
                        &&& seen_before(b as int, p as int, wb, wp)
                        &&& forall|c: int, q: int|
                            members.contains(c) && #[trigger] write_at(*ir, counter, c, q) && seen_before(
                                b as int,
                                p as int,
                                c,
                                q,
                            ) ==> c == wb && q == wp
                    },
                decreases ids@.len() - p,
            {
                assert(is_code(*ir, ids@[p as int]));
                if node_writes(&ir.nodes[ids[p] as usize], counter) {
                    assert(write_at(*ir, counter, b as int, p as int));
                    if found.is_some() || !is_increment(ir, &ids, p, counter) {
                        assert forall|c: int, q: int| !#[trigger] sole_increment(*ir, members, counter, c, q) by {
                            if found is Some {
                                assert(write_at(*ir, counter, wb, wp));
                            }
                        }
                        return None;
                    }
                    assert(is_code(*ir, ids@[p - 1]));
                    found = Some(ir.nodes[ids[p - 1] as usize].pc);
                    proof {
                        wb = b as int;
                        wp = p as int;
                    }
                } else {
                    assert(!write_at(*ir, counter, b as int, p as int));
                }
                p = p + 1;
            }
        }
        b = b + 1;
    }
    proof {
        if found is Some {
            assert(sole_increment(*ir, members, counter, wb, wp));
        }
    }
    found
}

/// Increments whose Int32 result provably cannot overflow, so the raw-i32 loop
/// shape may add without an overflow exit: in a natural loop whose header ends
/// with `get_loc k; <Int32 operand>; lt; if_false -> exit`, the sequence
/// `get_loc k; inc|post_inc; put_loc k` is the only write to local `k`.
pub fn provably_bounded_increments(ir: &OptimizedIr) -> (r: BTreeSet<u32>)
    ensures
        forall|pc: u32| #[trigger] r@.contains(pc) == bounded_before(*ir, ir.blocks@.len() as int, pc),
{
    let mut bounded: BTreeSet<u32> = BTreeSet::new();
    let mut h: usize = 0;
    while h < ir.blocks.len()
        invariant
            h <= ir.blocks@.len(),
            forall|pc: u32| #[trigger] bounded@.contains(pc) == bounded_before(*ir, h as int, pc),
        decreases ir.blocks@.len() - h,
    {
        let ghost before = bounded@;
        let ghost mut hit: Option<u32> = None;
        if ir.blocks[h].is_loop_header {
            let flags = loop_members(ir, h);
            let ghost members = flagged(flags@);
            if let Some(counter) = counter_of(ir, h, &flags) {
                let increment = only_increment(ir, &flags, counter);
                if let Some(pc) = increment {
                    bounded.insert(pc);
                    proof {
                        hit = Some(pc);
                        let (b, p) = choose|b: int, p: int| #[trigger]
                            sole_increment(*ir, members, counter, b, p) && node_at(*ir, code(*ir, ir.blocks@[b]), p - 1).pc
                                == pc;
                        assert(sole_increment(*ir, members, counter, b, p));
                        assert(write_at(*ir, header_counter(*ir, h as int, members)->Some_0, b, p));
                        assert(bounded_by(*ir, h as int, pc));
                    }
                }
                proof {
                    assert forall|pc: u32| #[trigger] bounded_by(*ir, h as int, pc) implies hit == Some(pc) by {
                        same_increment(*ir, h as int, members, counter, increment, pc);
                    }
                }
            } else {
                proof {
                    assert forall|pc: u32| !#[trigger] bounded_by(*ir, h as int, pc) by {
                        no_increment(*ir, h as int, members, pc);
                    }
                }
            }
        }
        proof {
            assert forall|pc: u32| #[trigger] bounded@.contains(pc) == bounded_before(*ir, h + 1, pc) by {
                assert(before.contains(pc) == bounded_before(*ir, h as int, pc));
                if bounded_by(*ir, h as int, pc) {
                    assert(hit == Some(pc));
                }
                if hit == Some(pc) {
                    assert(bounded_by(*ir, h as int, pc));
                }
            }
        }
        h = h + 1;
    }
    bounded
}

proof fn same_increment(ir: OptimizedIr, header: int, members: Set<int>, counter: usize, increment: Option<u32>, pc: u32)
    requires
        natural_loop(ir, header, members),
        header_counter(ir, header, members) == Some(counter),
        bounded_by(ir, header, pc),
        match increment {
            Some(found) => exists|b: int, p: int| #[trigger]
                sole_increment(ir, members, counter, b, p) && node_at(ir, code(ir, ir.blocks@[b]), p - 1).pc == found,
            None => forall|b: int, p: int| !#[trigger] sole_increment(ir, members, counter, b, p),
        },
    ensures
        increment == Some(pc),
{
    let (other, b, p) = choose|other: Set<int>, b: int, p: int|
        #![trigger natural_loop(ir, header, other), write_at(ir, header_counter(ir, header, other)->Some_0, b, p)]
        natural_loop(ir, header, other) && header_counter(ir, header, other) is Some && sole_increment(
            ir,
            other,
            header_counter(ir, header, other)->Some_0,
            b,
            p,
        ) && node_at(ir, code(ir, ir.blocks@[b]), p - 1).pc == pc;
    natural_loop_is_unique(ir, header, members, other);
    assert(sole_increment(ir, members, counter, b, p));
    if let Some(found) = increment {
        let (c, q) = choose|c: int, q: int| #[trigger]
            sole_increment(ir, members, counter, c, q) && node_at(ir, code(ir, ir.blocks@[c]), q - 1).pc == found;
        assert(write_at(ir, counter, c, q));
    }
}

proof fn no_increment(ir: OptimizedIr, header: int, members: Set<int>, pc: u32)
    requires
        natural_loop(ir, header, members),
        header_counter(ir, header, members) is None,
    ensures
        !bounded_by(ir, header, pc),
{
    if bounded_by(ir, header, pc) {
        let (other, b, p) = choose|other: Set<int>, b: int, p: int|
            #![trigger natural_loop(ir, header, other), write_at(ir, header_counter(ir, header, other)->Some_0, b, p)]
            natural_loop(ir, header, other) && header_counter(ir, header, other) is Some && sole_increment(
                ir,
                other,
                header_counter(ir, header, other)->Some_0,
                b,
                p,
            ) && node_at(ir, code(ir, ir.blocks@[b]), p - 1).pc == pc;
        natural_loop_is_unique(ir, header, members, other);
    }
}

} // verus!
