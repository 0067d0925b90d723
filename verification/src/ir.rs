//! The optimizing tier's view of a function: blocks, nodes and scalar values.
use crate::diagnostics::DeoptMap;
use crate::names::name_is;
use vstd::prelude::*;

verus! {



#[derive(Clone, Copy, Debug, PartialEq, Eq, Structural)]
pub enum FrameSlot {
    Argument(u16),
    Local(u16),
    Stack(u16),
}

/// The identity that an inlined call was specialized for.
#[derive(Clone, Copy, Debug, PartialEq, Eq, Structural)]
pub struct InlineRegion {
    pub object_identity: u64,
    pub bytecode_identity: u64,
}

#[derive(Clone, Copy, Debug, PartialEq, Eq, Structural)]
pub struct ScalarCall {
    /// The node whose frame state describes the call.
    pub frame_state_node: u32,
    /// The scalar value that is called.
    pub target: usize,
    pub frame_inline: bool,
    pub inline: Option<InlineRegion>,
}

#[derive(Debug)]
pub enum ScalarValue {
    Int32(i32),
    Bool(bool),
    Binary,
    Update,
    Bitwise,
    Compare,
    Input { block_pc: u32, slot: FrameSlot },
    FrameRead { slot: FrameSlot },
    Call(ScalarCall),
    Phi { inputs: Vec<usize> },
    GetProperty,
    GetElement,
    Opaque,
}

#[derive(Clone, Copy, Debug, PartialEq, Eq, Structural)]
pub enum ScalarHeapOperation {
    GetElement { base: usize, index: usize, result: usize },
    PutElement { base: usize, index: usize },
    GetProperty { base: usize, atom: u32, result: usize },
    PutProperty { base: usize, atom: u32 },
}

#[derive(Clone, Copy, Debug, PartialEq, Eq, Structural)]
pub enum ScalarHeapEffect {
    Pure,
    FrameWrite,
    HeapWrite,
    Reentrant,
}

#[derive(Debug)]
pub enum OptimizedNodeKind {
    GuardNumeric { guard: u32, mid_loop: bool },
    Reuse { source: u32 },
    Bytecode { opcode: String },
}

/// A stack shuffle: how many values it takes, and which of them it pushes back.
#[derive(Debug)]
pub struct StackShuffle {
    pub take: usize,
    pub order: Vec<usize>,
}

#[derive(Debug)]
pub struct OptimizedNode {
    pub id: u32,
    pub pc: u32,
    pub kind: OptimizedNodeKind,
    pub bytes: Vec<u8>,
    pub pops: u16,
    pub pushes: u16,
    pub eliminated: bool,
    pub deopt_guard: Option<u32>,
    pub branch_target: Option<u32>,
    pub shuffle: Option<StackShuffle>,
    /// The operand stack before the node, as scalar values.
    pub frame_stack: Option<Vec<usize>>,
    /// The scalar values that the node produces.
    pub outputs: Vec<usize>,
    /// The frame slots that the node redefines.
    pub frame_definitions: Vec<FrameSlot>,
    pub call: Option<ScalarCall>,
    pub heap_operation: Option<ScalarHeapOperation>,
    pub effect: ScalarHeapEffect,
}

impl OptimizedNode {
    /// The opcode's name; nodes that are no bytecode have none.
    pub open spec fn name(&self) -> Seq<char> {
        match self.kind {
            OptimizedNodeKind::Bytecode { opcode } => opcode@,
            _ => Seq::empty(),
        }
    }

    pub open spec fn is_bytecode(&self) -> bool {
        self.kind is Bytecode
    }

    /// A shuffle takes what the node pops and pushes what the node pushes, and
    /// `get_field2` pushes the property behind its receiver.
    pub open spec fn wf(&self) -> bool {
        &&& self.name() == "get_field2"@ ==> self.pushes >= 2
        &&& self.shuffle matches Some(shuffle) ==> {
            &&& shuffle.take == self.pops
            &&& shuffle.order@.len() == self.pushes
            &&& forall|k: int| 0 <= k < shuffle.order@.len() ==> #[trigger] shuffle.order@[k] < shuffle.take
        }
    }
}

#[derive(Debug)]
pub struct OptimizedBlock {
    pub start_pc: u32,
    pub stack_depth: u16,
    pub successors: Vec<u32>,
    pub nodes: Vec<u32>,
    pub is_loop_header: bool,
    /// The scalar values that enter the block, by frame slot.
    pub inputs: Vec<(FrameSlot, usize)>,
}

/// The argument, local and stack slots of a frame.
#[derive(Clone, Copy, Debug, PartialEq, Eq, Structural)]
pub struct FrameShape {
    pub arguments: u16,
    pub locals: u16,
    pub stack: u16,
}

#[derive(Debug)]
pub struct OptimizedIr {
    pub blocks: Vec<OptimizedBlock>,
    pub nodes: Vec<OptimizedNode>,
    pub values: Vec<ScalarValue>,
    pub max_stack: u16,
    /// Stack slots beyond the function's own that helpers may use.
    pub helper_scratch_slots: u16,
    /// The frame at the function's entry guard.
    pub entry_shape: Option<FrameShape>,
    /// How many calls were replaced by their callee's scalar region.
    pub inlined_calls: u64,
    /// How many calls were replaced by their callee's bytecode.
    pub frame_inlined_calls: u64,
    pub feedback_epoch: u64,
    /// The frames that the guards recover.
    pub guard_maps: Vec<GuardSite>,
    pub boxes_elided: u64,
    pub cse_eliminated: u64,
    pub dead_nodes_eliminated: u64,
    /// What the scalar graph occupies.
    pub allocated_bytes: usize,
}

/// The frame at a guard, and where execution goes on when it fails.
#[derive(Clone, Copy, Debug, PartialEq, Eq, Structural)]
pub struct GuardSite {
    pub shape: FrameShape,
    pub map: DeoptMap,
}

impl OptimizedIr {
    /// Nodes are numbered by position, shuffles fit their nodes, and outputs are values.
    pub open spec fn wf(&self) -> bool {
        forall|i: int|
            0 <= i < self.nodes@.len() ==> {
                &&& (#[trigger] self.nodes@[i]).wf()
                &&& self.nodes@[i].id == i
                &&& forall|k: int|
                    0 <= k < self.nodes@[i].outputs@.len() ==> #[trigger] self.nodes@[i].outputs@[k] < self.values@.len()
            }
    }
}

impl OptimizedNode {
    fn is_wf(&self) -> (r: bool)
        ensures
            r == self.wf(),
    {
        if name_is(node_name(self), "get_field2") && self.pushes < 2 {
            return false;
        }
        match &self.shuffle {
            None => true,
            Some(shuffle) => {
                if shuffle.take != self.pops as usize || shuffle.order.len() != self.pushes as usize {
                    return false;
                }
                let mut k: usize = 0;
                while k < shuffle.order.len()
                    invariant
                        k <= shuffle.order@.len(),
                        self.shuffle == Some(*shuffle),
                        forall|j: int| 0 <= j < k ==> #[trigger] shuffle.order@[j] < shuffle.take,
                    decreases shuffle.order@.len() - k,
                {
                    if shuffle.order[k] >= shuffle.take {
                        assert(!(shuffle.order@[k as int] < shuffle.take));
                        return false;
                    }
                    k = k + 1;
                }
                true
            },
        }
    }
}

impl OptimizedIr {
    /// The graph is one that planning and lowering take.
    pub fn is_wf(&self) -> (r: bool)
        ensures
            r == self.wf(),
    {
        let mut i: usize = 0;
        while i < self.nodes.len()
            invariant
                i <= self.nodes@.len(),
                forall|j: int|
                    0 <= j < i ==> {
                        &&& (#[trigger] self.nodes@[j]).wf()
                        &&& self.nodes@[j].id == j
                        &&& forall|k: int|
                            0 <= k < self.nodes@[j].outputs@.len() ==> #[trigger] self.nodes@[j].outputs@[k]
                                < self.values@.len()
                    },
            decreases self.nodes@.len() - i,
        {
            let node = &self.nodes[i];
            assert(*node == self.nodes@[i as int]);
            if node.id as usize != i || !node.is_wf() {
                return false;
            }
            let mut k: usize = 0;
            while k < node.outputs.len()
                invariant
                    k <= node.outputs@.len(),
                    i < self.nodes@.len(),
                    *node == self.nodes@[i as int],
                    forall|j: int| 0 <= j < k ==> #[trigger] node.outputs@[j] < self.values@.len(),
                decreases node.outputs@.len() - k,
            {
                if node.outputs[k] >= self.values.len() {
                    assert(!(self.nodes@[i as int].outputs@[k as int] < self.values@.len()));
                    return false;
                }
                k = k + 1;
            }
            i = i + 1;
        }
        true
    }
}

/// A natural loop; blocks are named by their first program counter.
#[derive(Debug)]
pub struct NaturalLoop {
    pub header: u32,
    pub preheader: Option<u32>,
    pub members: Vec<u32>,
}

/// The loops of a function and the dominance between its blocks.
#[derive(Debug)]
pub struct LoopAnalysis {
    /// The analysis finished within its budget.
    pub complete: bool,
    pub loops: Vec<NaturalLoop>,
    /// The block of each node.
    pub node_blocks: Vec<Option<u32>>,
    /// The pairs of blocks of which the first dominates the second.
    pub dominance: Vec<(u32, u32)>,
}

impl LoopAnalysis {
    pub open spec fn block_of(&self, node: int) -> Option<u32> {
        if 0 <= node < self.node_blocks@.len() {
            self.node_blocks@[node]
        } else {
            None
        }
    }

    pub open spec fn dominates_spec(&self, a: u32, b: u32) -> bool {
        self.dominance@.contains((a, b))
    }

    /// The node lies in some loop.
    pub open spec fn in_loop(&self, node: int) -> bool {
        self.block_of(node) matches Some(block) && exists|l: int|
            0 <= l < self.loops@.len() && (#[trigger] self.loops@[l]).members@.contains(block)
    }

    pub fn block_for_node(&self, node: u32) -> (r: Option<u32>)
        ensures
            r == self.block_of(node as int),
    {
        if (node as usize) < self.node_blocks.len() {
            self.node_blocks[node as usize]
        } else {
            None
        }
    }

    pub fn dominates(&self, a: u32, b: u32) -> (r: bool)
        ensures
            r == self.dominates_spec(a, b),
    {
        let mut i: usize = 0;
        while i < self.dominance.len()
            invariant
                i <= self.dominance@.len(),
                forall|k: int| 0 <= k < i ==> self.dominance@[k] != (a, b),
            decreases self.dominance@.len() - i,
        {
            if self.dominance[i].0 == a && self.dominance[i].1 == b {
                assert(self.dominance@[i as int] == (a, b));
                return true;
            }
            i = i + 1;
        }
        false
    }

    /// Every path to the second node passes the first: it comes earlier in the
    /// same block, or its block dominates.
    pub open spec fn node_dominates_spec(&self, a: int, b: int) -> bool {
        self.block_of(a) matches Some(first) && (self.block_of(b) matches Some(second) && if first == second {
            a <= b
        } else {
            self.dominates_spec(first, second)
        })
    }

    pub fn node_dominates(&self, a: u32, b: u32) -> (r: bool)
        ensures
            r == self.node_dominates_spec(a as int, b as int),
    {
        match (self.block_for_node(a), self.block_for_node(b)) {
            (Some(first), Some(second)) => if first == second {
                a <= b
            } else {
                self.dominates(first, second)
            },
            _ => false,
        }
    }

    pub fn contains(&self, node: u32) -> (r: bool)
        ensures
            r == self.in_loop(node as int),
    {
        let block: u32 = match self.block_for_node(node) {
            Some(block) => block,
            None => return false,
        };
        let mut l: usize = 0;
        while l < self.loops.len()
            invariant
                l <= self.loops@.len(),
                self.block_of(node as int) == Some(block),
                forall|k: int| 0 <= k < l ==> !(#[trigger] self.loops@[k]).members@.contains(block),
            decreases self.loops@.len() - l,
        {
            if self.loops[l].contains_block(block) {
                assert(self.loops@[l as int].members@.contains(block));
                return true;
            }
            l = l + 1;
        }
        false
    }
}

impl NaturalLoop {
    pub fn contains_block(&self, block: u32) -> (r: bool)
        ensures
            r == self.members@.contains(block),
    {
        let mut i: usize = 0;
        while i < self.members.len()
            invariant
                i <= self.members@.len(),
                forall|k: int| 0 <= k < i ==> self.members@[k] != block,
            decreases self.members@.len() - i,
        {
            if self.members[i] == block {
                assert(self.members@[i as int] == block);
                return true;
            }
            i = i + 1;
        }
        false
    }
}

/// The entry argument that each value is known to be.
#[derive(Debug)]
pub struct KnownFacts {
    pub arguments: Vec<Option<u16>>,
}

impl KnownFacts {
    pub open spec fn argument_of(&self, value: usize) -> Option<u16> {
        if value < self.arguments@.len() {
            self.arguments@[value as int]
        } else {
            None
        }
    }

    pub fn entry_argument(&self, value: usize) -> (r: Option<u16>)
        ensures
            r == self.argument_of(value),
    {
        if value < self.arguments.len() {
            self.arguments[value]
        } else {
            None
        }
    }
}

/// The name of a node's opcode, or the empty name.
pub fn node_name(node: &OptimizedNode) -> (r: &str)
    ensures
        r@ == node.name(),
{
    match &node.kind {
        OptimizedNodeKind::Bytecode { opcode } => opcode.as_str(),
        _ => {
            proof {
                reveal_strlit("");
                assert(""@ =~= Seq::<char>::empty());
            }
            ""
        },
    }
}

} // verus!
