//! What the runtime has observed of a function, and what a compile request carries.
use vstd::prelude::*;

verus! {

#[derive(Clone, Copy, Debug, PartialEq, Eq, Structural)]
pub struct FunctionKey {
    pub id: u64,
    pub generation: u64,
}

#[derive(Clone, Copy, Debug, PartialEq, Eq, Structural)]
pub enum ObservedType {
    Int32,
    Float64,
    Bool,
    Null,
    Undefined,
    Object,
    Other,
}

#[derive(Clone, Copy, Debug, PartialEq, Eq, Structural)]
pub enum FeedbackRepresentation {
    Int32,
    Float64,
    Bool,
    HeapRef,
}

#[derive(Clone, Copy, Debug, PartialEq, Eq, Structural)]
pub enum ArrayMode {
    Packed,
    Int32,
    Float64,
    Generic,
}

#[derive(Clone, Copy, Debug, PartialEq, Eq, Structural)]
pub enum ArrayAccess {
    Load,
    Store,
    Length,
}

/// What was seen at an array access.
#[derive(Clone, Copy, Debug, PartialEq, Eq, Structural)]
pub struct ArrayFeedback {
    pub function: FunctionKey,
    pub pc: u32,
    pub access: ArrayAccess,
    /// The mode of every array seen, where there was exactly one.
    pub only_mode: Option<ArrayMode>,
    pub can_specialize: bool,
}

/// One shape seen at a property access.
#[derive(Clone, Copy, Debug, PartialEq, Eq, Structural)]
pub struct ShapeObservation {
    pub shape_identity: u64,
    pub shape_generation: u64,
    pub property_offset: u32,
    pub prototype_identity: u64,
    pub prototype_generation: u64,
    pub accessor: bool,
    pub writable: bool,
    pub value: ObservedType,
}

#[derive(Debug)]
pub struct PropertySite {
    pub pc: u32,
    pub megamorphic: bool,
    pub observations: Vec<ShapeObservation>,
}

#[derive(Debug)]
pub struct BinarySite {
    pub function: FunctionKey,
    pub pc: u32,
    pub monomorphic: bool,
    pub lhs: Vec<ObservedType>,
    pub rhs: Vec<ObservedType>,
    pub result: Vec<ObservedType>,
}

/// The callee, argument and result types that a call site always had.
#[derive(Debug)]
pub struct CallSpecializationKey {
    pub callee: FunctionKey,
    pub object_identity: u64,
    pub bytecode_identity: u64,
    pub arguments: Vec<FeedbackRepresentation>,
    pub result: FeedbackRepresentation,
}

pub struct CallModel {
    pub callee: FunctionKey,
    pub object_identity: u64,
    pub bytecode_identity: u64,
    pub arguments: Seq<FeedbackRepresentation>,
    pub result: FeedbackRepresentation,
}

impl View for CallSpecializationKey {
    type V = CallModel;

    open spec fn view(&self) -> CallModel {
        CallModel {
            callee: self.callee,
            object_identity: self.object_identity,
            bytecode_identity: self.bytecode_identity,
            arguments: self.arguments@,
            result: self.result,
        }
    }
}

impl CallSpecializationKey {
    pub fn duplicate(&self) -> (r: Self)
        ensures
            r@ == self@,
    {
        let mut arguments: Vec<FeedbackRepresentation> = Vec::new();
        let mut i: usize = 0;
        while i < self.arguments.len()
            invariant
                i <= self.arguments@.len(),
                arguments@ =~= self.arguments@.take(i as int),
            decreases self.arguments@.len() - i,
        {
            arguments.push(self.arguments[i]);
            i = i + 1;
        }
        assert(arguments@ =~= self.arguments@);
        CallSpecializationKey {
            callee: self.callee,
            object_identity: self.object_identity,
            bytecode_identity: self.bytecode_identity,
            arguments,
            result: self.result,
        }
    }
}

#[derive(Debug)]
pub struct CallSite {
    pub function: FunctionKey,
    pub pc: u32,
    pub call: CallSpecializationKey,
}

#[derive(Debug)]
pub struct ArgumentTypes {
    pub function: FunctionKey,
    pub types: Vec<ObservedType>,
}

/// The one signature that a function was called with.
#[derive(Clone, Debug)]
pub struct BoundedSignature {
    pub function: FunctionKey,
    pub arguments: Vec<FeedbackRepresentation>,
    pub result: FeedbackRepresentation,
}

#[derive(Debug)]
pub struct FeedbackSnapshot {
    pub arrays: Vec<ArrayFeedback>,
    pub calls: Vec<CallSite>,
    pub properties: Vec<PropertySite>,
    pub argument_types: Vec<ArgumentTypes>,
    pub binaries: Vec<BinarySite>,
    pub signatures: Vec<BoundedSignature>,
}

/// The first index below `n` at which `f` holds.
pub open spec fn first_at(f: spec_fn(int) -> bool, n: nat) -> Option<int>
    decreases n,
{
    if n == 0 {
        None
    } else {
        match first_at(f, (n - 1) as nat) {
            Some(i) => Some(i),
            None => if f(n - 1) {
                Some(n - 1)
            } else {
                None
            },
        }
    }
}

pub proof fn first_at_is(f: spec_fn(int) -> bool, n: nat, i: int)
    requires
        0 <= i < n,
        f(i),
        forall|k: int| 0 <= k < i ==> !#[trigger] f(k),
    ensures
        first_at(f, n) == Some(i),
    decreases n,
{
    if i < n - 1 {
        first_at_is(f, (n - 1) as nat, i);
    } else {
        first_at_none(f, i as nat);
    }
}

pub proof fn first_at_none(f: spec_fn(int) -> bool, n: nat)
    requires
        forall|k: int| 0 <= k < n ==> !#[trigger] f(k),
    ensures
        first_at(f, n) is None,
    decreases n,
{
    if n > 0 {
        first_at_none(f, (n - 1) as nat);
        assert(!f(n - 1));
    }
}

pub proof fn first_at_meaning(f: spec_fn(int) -> bool, n: nat)
    ensures
        match first_at(f, n) {
            Some(i) => 0 <= i < n && f(i) && forall|k: int| 0 <= k < i ==> !#[trigger] f(k),
            None => forall|k: int| 0 <= k < n ==> !#[trigger] f(k),
        },
    decreases n,
{
    if n > 0 {
        first_at_meaning(f, (n - 1) as nat);
    }
}

impl FeedbackSnapshot {
    pub open spec fn spec_call_at(&self, key: FunctionKey, pc: u32) -> Option<int> {
        first_at(|i: int| self.calls@[i].function == key && self.calls@[i].pc == pc, self.calls@.len())
    }

    pub open spec fn spec_property_at(&self, pc: u32) -> Option<int> {
        first_at(|i: int| self.properties@[i].pc == pc, self.properties@.len())
    }

    pub open spec fn spec_binary_at(&self, key: FunctionKey, pc: u32) -> Option<int> {
        first_at(|i: int| self.binaries@[i].function == key && self.binaries@[i].pc == pc, self.binaries@.len())
    }

    pub open spec fn spec_argument_types(&self, key: FunctionKey) -> Option<int> {
        first_at(|i: int| self.argument_types@[i].function == key, self.argument_types@.len())
    }

    pub open spec fn spec_signature(&self, key: FunctionKey) -> Option<int> {
        first_at(|i: int| self.signatures@[i].function == key, self.signatures@.len())
    }

    /// The specialization of the call at `pc`.
    pub fn call_specialization_at(&self, key: FunctionKey, pc: u32) -> (r: Option<usize>)
        ensures
            match r {
                Some(i) => self.spec_call_at(key, pc) == Some(i as int) && i < self.calls@.len(),
                None => self.spec_call_at(key, pc) is None,
            },
    {
        let ghost f = |i: int| self.calls@[i].function == key && self.calls@[i].pc == pc;
        let mut i: usize = 0;
        while i < self.calls.len()
            invariant
                i <= self.calls@.len(),
                f == (|i: int| self.calls@[i].function == key && self.calls@[i].pc == pc),
                forall|k: int| 0 <= k < i ==> !#[trigger] f(k),
            decreases self.calls@.len() - i,
        {
            if self.calls[i].function == key && self.calls[i].pc == pc {
                proof {
                    first_at_is(f, self.calls@.len(), i as int);
                }
                return Some(i);
            }
            i = i + 1;
        }
        proof {
            first_at_none(f, self.calls@.len());
        }
        None
    }

    /// What was seen at the property access at `pc`.
    pub fn property_at(&self, pc: u32) -> (r: Option<usize>)
        ensures
            match r {
                Some(i) => self.spec_property_at(pc) == Some(i as int) && i < self.properties@.len(),
                None => self.spec_property_at(pc) is None,
            },
    {
        let ghost f = |i: int| self.properties@[i].pc == pc;
        let mut i: usize = 0;
        while i < self.properties.len()
            invariant
                i <= self.properties@.len(),
                f == (|i: int| self.properties@[i].pc == pc),
                forall|k: int| 0 <= k < i ==> !#[trigger] f(k),
            decreases self.properties@.len() - i,
        {
            if self.properties[i].pc == pc {
                proof {
                    first_at_is(f, self.properties@.len(), i as int);
                }
                return Some(i);
            }
            i = i + 1;
        }
        proof {
            first_at_none(f, self.properties@.len());
        }
        None
    }

    /// What was seen at the binary operation at `pc`.
    pub fn binary_at(&self, key: FunctionKey, pc: u32) -> (r: Option<usize>)
        ensures
            match r {
                Some(i) => self.spec_binary_at(key, pc) == Some(i as int) && i < self.binaries@.len(),
                None => self.spec_binary_at(key, pc) is None,
            },
    {
        let ghost f = |i: int| self.binaries@[i].function == key && self.binaries@[i].pc == pc;
        let mut i: usize = 0;
        while i < self.binaries.len()
            invariant
                i <= self.binaries@.len(),
                f == (|i: int| self.binaries@[i].function == key && self.binaries@[i].pc == pc),
                forall|k: int| 0 <= k < i ==> !#[trigger] f(k),
            decreases self.binaries@.len() - i,
        {
            if self.binaries[i].function == key && self.binaries[i].pc == pc {
                proof {
                    first_at_is(f, self.binaries@.len(), i as int);
                }
                return Some(i);
            }
            i = i + 1;
        }
        proof {
            first_at_none(f, self.binaries@.len());
        }
        None
    }

    /// The types of the arguments that the function was called with.
    pub fn call_argument_types(&self, key: FunctionKey) -> (r: Option<usize>)
        ensures
            match r {
                Some(i) => self.spec_argument_types(key) == Some(i as int) && i < self.argument_types@.len(),
                None => self.spec_argument_types(key) is None,
            },
    {
        let ghost f = |i: int| self.argument_types@[i].function == key;
        let mut i: usize = 0;
        while i < self.argument_types.len()
            invariant
                i <= self.argument_types@.len(),
                f == (|i: int| self.argument_types@[i].function == key),
                forall|k: int| 0 <= k < i ==> !#[trigger] f(k),
            decreases self.argument_types@.len() - i,
        {
            if self.argument_types[i].function == key {
                proof {
                    first_at_is(f, self.argument_types@.len(), i as int);
                }
                return Some(i);
            }
            i = i + 1;
        }
        proof {
            first_at_none(f, self.argument_types@.len());
        }
        None
    }

    /// The signature that the function was specialized for.
    pub fn bounded_specialization(&self, key: FunctionKey) -> (r: Option<usize>)
        ensures
            match r {
                Some(i) => self.spec_signature(key) == Some(i as int) && i < self.signatures@.len(),
                None => self.spec_signature(key) is None,
            },
    {
        let ghost f = |i: int| self.signatures@[i].function == key;
        let mut i: usize = 0;
        while i < self.signatures.len()
            invariant
                i <= self.signatures@.len(),
                f == (|i: int| self.signatures@[i].function == key),
                forall|k: int| 0 <= k < i ==> !#[trigger] f(k),
            decreases self.signatures@.len() - i,
        {
            if self.signatures[i].function == key {
                proof {
                    first_at_is(f, self.signatures@.len(), i as int);
                }
                return Some(i);
            }
            i = i + 1;
        }
        proof {
            first_at_none(f, self.signatures@.len());
        }
        None
    }
}

/// An alternate path into a function whose entry guard often failed.
#[derive(Clone, Copy, Debug, PartialEq, Eq, Structural)]
pub struct SidePathProfile {
    pub function: FunctionKey,
    pub feedback_epoch: u64,
    pub pc: u32,
    pub guard: u32,
    pub observed: ObservedType,
}

#[derive(Debug)]
pub struct Instruction {
    pub pc: u32,
    pub name: String,
    /// The encoded instruction, opcode first.
    pub bytes: Vec<u8>,
    pub branch_target: Option<u32>,
}

/// A constant of the function's pool.
#[derive(Clone, Copy, Debug, PartialEq, Eq, Structural)]
pub struct Constant {
    pub index: u32,
    pub tag: i32,
    pub payload: u64,
}

#[derive(Clone, Copy, Debug, PartialEq, Eq, Structural)]
pub struct TaggedValue {
    pub payload: u64,
    pub tag: i64,
}

/// Bytecode that has passed verification.
#[derive(Debug)]
pub struct VerifiedFunction {
    pub key: FunctionKey,
    pub instructions: Vec<Instruction>,
    pub arg_count: u16,
    pub local_count: u16,
    pub stack_size: u16,
    /// What the function's snapshot keeps alive.
    pub retained_bytes: usize,
    pub has_exceptions: bool,
    pub constants: Vec<Constant>,
    pub has_loop: bool,
}

} // verus!
