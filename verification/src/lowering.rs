//! What lowering a function keeps track of between two nodes.
use crate::code::value;
use crate::code::Status;
use crate::elements::GuardedElementSource;
use crate::frame::runs_on;
use crate::frame::OptEnv;
use crate::lower_values::vars_after;
use crate::lower_values::OptPair;
use crate::lower_values::OptVars;
use crate::provenance::OptProvenance;
use crate::scalar::pairs_known;
use std::collections::BTreeMap;
use vstd::prelude::*;

verus! {

/// The operand stack between two nodes, and the values that are at hand.
#[derive(Debug)]
pub struct LowerState {
    pub depth: usize,
    pub provenance: Vec<OptProvenance>,
    /// Array storage that has been checked in this block.
    pub source: Option<GuardedElementSource>,
    /// What earlier nodes computed, by node.
    pub reusable: BTreeMap<u32, OptPair>,
    /// What is held of the scalar values.
    pub values: BTreeMap<usize, OptPair>,
}

#[verifier::ext_equal]
pub struct Lowered {
    pub depth: int,
    pub provenance: Seq<OptProvenance>,
    pub source: Option<GuardedElementSource>,
    pub reusable: Map<u32, OptPair>,
    pub values: Map<usize, OptPair>,
}

impl View for LowerState {
    type V = Lowered;

    open spec fn view(&self) -> Lowered {
        Lowered {
            depth: self.depth as int,
            provenance: self.provenance@,
            source: self.source,
            reusable: self.reusable@,
            values: self.values@,
        }
    }
}

pub open spec fn reusable_known(reusable: Map<u32, OptPair>, n: int) -> bool {
    forall|id: u32| #[trigger] reusable.contains_key(id) ==> reusable[id].payload < n && reusable[id].tag < n
}

pub open spec fn source_known(source: Option<GuardedElementSource>, n: int) -> bool {
    source matches Some(found) ==> crate::element_code::storage_known(found.storage, n)
}

impl Lowered {
    /// The stack fits the frame, and what is at hand is in the code.
    pub open spec fn wf(self, env: OptEnv<'_>, n: int) -> bool {
        &&& 0 <= self.depth <= env.stack@.len()
        &&& self.provenance.len() == env.stack@.len()
        &&& reusable_known(self.reusable, n)
        &&& source_known(self.source, n)
        &&& pairs_known(self.values, n)
    }

    /// A value is pushed.
    pub open spec fn push(self, provenance: OptProvenance) -> Lowered {
        Lowered { depth: self.depth + 1, provenance: self.provenance.update(self.depth, provenance), ..self }
    }

    /// `count` values are popped.
    pub open spec fn pop(self, count: int) -> Lowered {
        Lowered { depth: self.depth - count, ..self }
    }

    pub open spec fn forget(self) -> Lowered {
        Lowered { source: None, ..self }
    }

    /// The value of a node is at hand.
    pub open spec fn remember(self, node: u32, pair: OptPair) -> Lowered {
        Lowered { reusable: self.reusable.insert(node, pair), ..self }
    }

    /// No slot from `from` on below the depth owns its value.
    pub open spec fn borrowed_from(self, from: int) -> bool {
        forall|k: int| from <= k < self.depth ==> #[trigger] self.provenance[k] != OptProvenance::OwnedSlot
    }
}

/// Control goes on with a slot that holds the value, and nothing observed.
pub open spec fn assigns(st: Status, st2: Status, n: int, slot: OptVars, payload: int, tag: int) -> bool {
    match st {
        Status::Run(s) => runs_on(st2, s, n, vars_after(s.vars, slot, payload, tag), s.trace),
        st => st2 == st,
    }
}

/// Control goes on with a slot that holds the value of another, and nothing
/// observed.
pub open spec fn copies(st: Status, st2: Status, n: int, slot: OptVars, from: OptVars) -> bool {
    match st {
        Status::Run(s) => runs_on(
            st2,
            s,
            n,
            vars_after(s.vars, slot, s.vars[from.payload as int], s.vars[from.tag as int]),
            s.trace,
        ),
        st => st2 == st,
    }
}

/// The pair holds the value wherever control goes on.
pub open spec fn holds_value(st: Status, pair: OptPair, payload: int, tag: int) -> bool {
    st is Run ==> value(st, pair.payload) == payload && value(st, pair.tag) == tag
}

impl LowerState {
    pub fn forget_source(&mut self)
        ensures
            final(self)@ == old(self)@.forget(),
    {
        self.source = None;
    }

    /// The first slot of the operands of an instruction that takes `count`.
    pub fn below(&self, count: usize) -> (r: usize)
        ensures
            r == if self.depth >= count {
                self.depth - count
            } else {
                0
            },
    {
        if self.depth >= count {
            self.depth - count
        } else {
            0
        }
    }
}

} // verus!
