//! Specializing a function for what the runtime has observed of it.
use crate::names::is_call_site;
use crate::names::name_is;
use crate::names::spec_is_call_site;
use crate::qjs::JS_TAG_FLOAT64;
use crate::qjs::JS_TAG_INT;
use crate::runtime::ArrayAccess;
use crate::runtime::ArrayFeedback;
use crate::runtime::ArrayMode;
use crate::runtime::BinarySite;
use crate::runtime::CallSpecializationKey;
use crate::runtime::Constant;
use crate::runtime::FeedbackRepresentation;
use crate::runtime::FeedbackSnapshot;
use crate::runtime::FunctionKey;
use crate::runtime::ObservedType;
use crate::runtime::PropertySite;
use crate::runtime::ShapeObservation;
use crate::runtime::TaggedValue;
use crate::runtime::VerifiedFunction;
use std::collections::BTreeMap;
use std::collections::BTreeSet;
use vstd::prelude::*;

verus! {

broadcast use vstd::std_specs::btree::group_btree_axioms;

#[derive(Clone, Copy, Debug, PartialEq, Eq, Structural)]
pub enum EntryRepresentation {
    Any,
    Bool,
    Numeric,
    Int32,
    Float64,
    HeapRef,
}

/// How the scalar graph computes at an instruction.
#[derive(Clone, Copy, Debug, PartialEq, Eq, Structural)]
pub enum ScalarNumericMode {
    Int32,
    Float64,
}

/// What the lowering may assume, behind guards, of a function.
#[derive(Debug)]
pub struct NumericSpecialization {
    pub key: Option<FunctionKey>,
    pub entry: EntryRepresentation,
    pub arguments: Vec<EntryRepresentation>,
    pub int_pcs: BTreeSet<u32>,
    pub float_pcs: BTreeSet<u32>,
    pub calls: BTreeMap<u32, CallSpecializationKey>,
    pub properties: BTreeMap<u32, Vec<ShapeObservation>>,
    pub arrays: Vec<ArrayFeedback>,
    pub numeric_constants: BTreeMap<u32, TaggedValue>,
}

impl NumericSpecialization {
    /// A specialization that assumes nothing.
    pub open spec fn is_empty(&self) -> bool {
        &&& self.key is None
        &&& self.entry == EntryRepresentation::Any
        &&& self.arguments@.len() == 0
        &&& self.int_pcs@ == Set::<u32>::empty()
        &&& self.float_pcs@ == Set::<u32>::empty()
        &&& self.calls@ == Map::<u32, CallSpecializationKey>::empty()
        &&& self.properties@ == Map::<u32, Vec<ShapeObservation>>::empty()
        &&& self.arrays@.len() == 0
        &&& self.numeric_constants@ == Map::<u32, TaggedValue>::empty()
    }
}

impl Default for NumericSpecialization {
    fn default() -> (r: Self)
        ensures
            r.is_empty(),
    {
        NumericSpecialization {
            key: None,
            entry: EntryRepresentation::Any,
            arguments: Vec::new(),
            int_pcs: BTreeSet::new(),
            float_pcs: BTreeSet::new(),
            calls: BTreeMap::new(),
            properties: BTreeMap::new(),
            arrays: Vec::new(),
            numeric_constants: BTreeMap::new(),
        }
    }
}

pub open spec fn is_comparison(name: Seq<char>) -> bool {
    name == "lt"@ || name == "lte"@ || name == "gt"@ || name == "gte"@
}

pub open spec fn is_float_arithmetic(name: Seq<char>) -> bool {
    name == "add"@ || name == "sub"@ || name == "mul"@ || name == "div"@
}

pub open spec fn is_int_operation(name: Seq<char>) -> bool {
    is_float_arithmetic(name) || name == "or"@ || is_comparison(name)
}

pub open spec fn is_update(name: Seq<char>) -> bool {
    name == "inc"@ || name == "dec"@ || name == "post_inc"@ || name == "post_dec"@ || name == "inc_loc"@ || name
        == "dec_loc"@
}

fn comparison(name: &str) -> (r: bool)
    ensures
        r == is_comparison(name@),
{
    name_is(name, "lt") || name_is(name, "lte") || name_is(name, "gt") || name_is(name, "gte")
}

fn float_arithmetic(name: &str) -> (r: bool)
    ensures
        r == is_float_arithmetic(name@),
{
    name_is(name, "add") || name_is(name, "sub") || name_is(name, "mul") || name_is(name, "div")
}

fn update(name: &str) -> (r: bool)
    ensures
        r == is_update(name@),
{
    name_is(name, "inc") || name_is(name, "dec") || name_is(name, "post_inc") || name_is(name, "post_dec") || name_is(
        name,
        "inc_loc",
    ) || name_is(name, "dec_loc")
}

/// The site always saw these operand and result types.
pub open spec fn site_is(site: BinarySite, operands: ObservedType, result: ObservedType) -> bool {
    &&& site.monomorphic
    &&& site.lhs@ == seq![operands]
    &&& site.rhs@ == seq![operands]
    &&& site.result@ == seq![result]
}

fn only(types: &Vec<ObservedType>, expected: ObservedType) -> (r: bool)
    ensures
        r == (types@ == seq![expected]),
{
    let r: bool = types.len() == 1 && types[0] == expected;
    proof {
        if r {
            assert(types@ =~= seq![expected]);
        } else if types@ == seq![expected] {
            assert(types@[0] == expected);
        }
    }
    r
}

fn always(site: &BinarySite, operands: ObservedType, result: ObservedType) -> (r: bool)
    ensures
        r == site_is(*site, operands, result),
{
    site.monomorphic && only(&site.lhs, operands) && only(&site.rhs, operands) && only(&site.result, result)
}

/// Instruction `i` is an operation that always saw 32-bit integers. The checked
/// path guards both operand tags at run time, so this selects it whatever the
/// function's own signature is.
pub open spec fn int_site(function: VerifiedFunction, key: FunctionKey, feedback: FeedbackSnapshot, i: int) -> bool {
    let instruction = function.instructions@[i];
    &&& is_int_operation(instruction.name@)
    &&& feedback.spec_binary_at(key, instruction.pc) matches Some(s) && site_is(
        feedback.binaries@[s],
        ObservedType::Int32,
        if is_comparison(instruction.name@) {
            ObservedType::Bool
        } else {
            ObservedType::Int32
        },
    )
}

/// Instruction `i` is arithmetic that always saw doubles.
pub open spec fn float_site(function: VerifiedFunction, key: FunctionKey, feedback: FeedbackSnapshot, i: int) -> bool {
    let instruction = function.instructions@[i];
    &&& is_float_arithmetic(instruction.name@)
    &&& feedback.spec_binary_at(key, instruction.pc) matches Some(s) && site_is(
        feedback.binaries@[s],
        ObservedType::Float64,
        ObservedType::Float64,
    )
}

/// An own data property that the access `name` may use directly.
pub open spec fn safe_observation(name: Seq<char>, o: ShapeObservation) -> bool {
    &&& o.prototype_identity == 0
    &&& o.prototype_generation == 0
    &&& !o.accessor
    &&& name == "put_field"@ ==> o.writable
    &&& {
        ||| o.value == ObservedType::Int32
        ||| o.value == ObservedType::Float64
        ||| o.value == ObservedType::Bool
        ||| o.value == ObservedType::Null
        ||| o.value == ObservedType::Undefined
        ||| name == "get_field"@ && o.value == ObservedType::Object
    }
}

pub open spec fn safe_property(name: Seq<char>, site: PropertySite) -> bool {
    &&& !site.megamorphic
    &&& 0 < site.observations@.len() <= 3
    &&& forall|k: int| 0 <= k < site.observations@.len() ==> safe_observation(name, #[trigger] site.observations@[k])
}

/// Instruction `i` accesses a property whose shapes are few and safe.
pub open spec fn property_site(function: VerifiedFunction, feedback: FeedbackSnapshot, i: int) -> bool {
    let instruction = function.instructions@[i];
    &&& instruction.name@ == "get_field"@ || instruction.name@ == "put_field"@
    &&& feedback.spec_property_at(instruction.pc) matches Some(s) && safe_property(
        instruction.name@,
        feedback.properties@[s],
    )
}

/// Instruction `i` is a call that always had one callee and signature.
pub open spec fn call_site(function: VerifiedFunction, key: FunctionKey, feedback: FeedbackSnapshot, i: int) -> bool {
    spec_is_call_site(function.instructions@[i].name@) && feedback.spec_call_at(key, function.instructions@[i].pc) is Some
}

pub open spec fn marks_int(function: VerifiedFunction, key: FunctionKey, feedback: FeedbackSnapshot, n: int, pc: u32) -> bool {
    exists|i: int| 0 <= i < n && function.instructions@[i].pc == pc && #[trigger] int_site(function, key, feedback, i)
}

pub open spec fn marks_float(function: VerifiedFunction, key: FunctionKey, feedback: FeedbackSnapshot, n: int, pc: u32) -> bool {
    exists|i: int| 0 <= i < n && function.instructions@[i].pc == pc && #[trigger] float_site(function, key, feedback, i)
}

pub open spec fn marks_property(function: VerifiedFunction, feedback: FeedbackSnapshot, n: int, pc: u32) -> bool {
    exists|i: int| 0 <= i < n && function.instructions@[i].pc == pc && #[trigger] property_site(function, feedback, i)
}

pub open spec fn marks_call(function: VerifiedFunction, key: FunctionKey, feedback: FeedbackSnapshot, n: int, pc: u32) -> bool {
    exists|i: int| 0 <= i < n && function.instructions@[i].pc == pc && #[trigger] call_site(function, key, feedback, i)
}

/// The numeric constants among the first `n`, by index; a later one replaces
/// an earlier one.
pub open spec fn numeric_pool(constants: Seq<Constant>, n: nat) -> Map<u32, TaggedValue>
    decreases n,
{
    if n == 0 {
        Map::empty()
    } else {
        let c = constants[n - 1];
        let rest = numeric_pool(constants, (n - 1) as nat);
        if c.tag == JS_TAG_INT || c.tag == JS_TAG_FLOAT64 {
            rest.insert(c.index, TaggedValue { payload: c.payload, tag: c.tag as i64 })
        } else {
            rest
        }
    }
}

pub open spec fn observed_entry(observed: ObservedType) -> EntryRepresentation {
    match observed {
        ObservedType::Int32 => EntryRepresentation::Int32,
        ObservedType::Float64 => EntryRepresentation::Float64,
        ObservedType::Object => EntryRepresentation::HeapRef,
        ObservedType::Bool => EntryRepresentation::Bool,
        _ => EntryRepresentation::Any,
    }
}

pub open spec fn represented_entry(representation: FeedbackRepresentation) -> EntryRepresentation {
    match representation {
        FeedbackRepresentation::Int32 => EntryRepresentation::Int32,
        FeedbackRepresentation::Float64 => EntryRepresentation::Float64,
        FeedbackRepresentation::HeapRef => EntryRepresentation::HeapRef,
        FeedbackRepresentation::Bool => EntryRepresentation::Bool,
    }
}

/// The signature that feedback gives the function, where its arity fits.
pub open spec fn usable_signature(function: VerifiedFunction, key: FunctionKey, feedback: FeedbackSnapshot) -> Option<int> {
    match feedback.spec_signature(key) {
        Some(s) => if feedback.signatures@[s].arguments@.len() == function.arg_count {
            Some(s)
        } else {
            None
        },
        None => None,
    }
}

/// The argument representations: those of the signature where its result is a
/// number, those of the observed arguments where there is no signature.
pub open spec fn entry_arguments(function: VerifiedFunction, key: FunctionKey, feedback: FeedbackSnapshot) -> Seq<EntryRepresentation> {
    match usable_signature(function, key, feedback) {
        Some(s) => {
            let signature = feedback.signatures@[s];
            if signature.result == FeedbackRepresentation::Int32 || signature.result == FeedbackRepresentation::Float64 {
                signature.arguments@.map_values(|r: FeedbackRepresentation| represented_entry(r))
            } else {
                Seq::empty()
            }
        },
        None => match feedback.spec_argument_types(key) {
            Some(t) => if feedback.argument_types@[t].types@.len() == function.arg_count {
                feedback.argument_types@[t].types@.map_values(|o: ObservedType| observed_entry(o))
            } else {
                Seq::empty()
            },
            None => Seq::empty(),
        },
    }
}

/// The representation that all arguments and the result share, if they do.
pub open spec fn uniform_entry(function: VerifiedFunction, key: FunctionKey, feedback: FeedbackSnapshot) -> EntryRepresentation {
    match usable_signature(function, key, feedback) {
        Some(s) => {
            let signature = feedback.signatures@[s];
            if (signature.result == FeedbackRepresentation::Int32 || signature.result == FeedbackRepresentation::Float64)
                && (forall|k: int|
                0 <= k < signature.arguments@.len() ==> #[trigger] signature.arguments@[k] == signature.result) {
                represented_entry(signature.result)
            } else {
                EntryRepresentation::Any
            }
        },
        None => EntryRepresentation::Any,
    }
}

/// What feedback says of the function, no more and no less.
pub open spec fn specialized(s: NumericSpecialization, function: VerifiedFunction, key: FunctionKey, feedback: FeedbackSnapshot) -> bool {
    let n = function.instructions@.len() as int;
    &&& s.key == Some(key)
    &&& s.entry == uniform_entry(function, key, feedback)
    &&& s.arguments@ == entry_arguments(function, key, feedback)
    &&& forall|pc: u32| #[trigger] s.int_pcs@.contains(pc) == marks_int(function, key, feedback, n, pc)
    &&& forall|pc: u32|
        #[trigger] s.float_pcs@.contains(pc) == (usable_signature(function, key, feedback) matches Some(g)
            && feedback.signatures@[g].result == FeedbackRepresentation::Float64 && marks_float(
            function,
            key,
            feedback,
            n,
            pc,
        ))
    &&& forall|pc: u32| #[trigger] s.calls@.contains_key(pc) == marks_call(function, key, feedback, n, pc)
    &&& forall|pc: u32| #[trigger]
        s.calls@.contains_key(pc) ==> s.calls@[pc]@ == feedback.calls@[feedback.spec_call_at(key, pc)->Some_0].call@
    &&& forall|pc: u32| #[trigger] s.properties@.contains_key(pc) == marks_property(function, feedback, n, pc)
    &&& forall|pc: u32| #[trigger]
        s.properties@.contains_key(pc) ==> s.properties@[pc]@
            == feedback.properties@[feedback.spec_property_at(pc)->Some_0].observations@
    &&& s.arrays@ == feedback.arrays@.filter(|site: ArrayFeedback| site.function == key)
    &&& s.numeric_constants@ == numeric_pool(function.constants@, function.constants@.len())
}

fn copy_observations(observations: &Vec<ShapeObservation>) -> (r: Vec<ShapeObservation>)
    ensures
        r@ == observations@,
{
    let mut r: Vec<ShapeObservation> = Vec::new();
    let mut i: usize = 0;
    while i < observations.len()
        invariant
            i <= observations@.len(),
            r@ =~= observations@.take(i as int),
        decreases observations@.len() - i,
    {
        r.push(observations[i]);
        i = i + 1;
    }
    assert(r@ =~= observations@);
    r
}

fn property_is_safe(name: &str, site: &PropertySite) -> (r: bool)
    ensures
        r == safe_property(name@, *site),
{
    if site.megamorphic || site.observations.len() == 0 || site.observations.len() > 3 {
        return false;
    }
    let get: bool = name_is(name, "get_field");
    let put: bool = name_is(name, "put_field");
    let mut k: usize = 0;
    while k < site.observations.len()
        invariant
            k <= site.observations@.len(),
            get == (name@ == "get_field"@),
            put == (name@ == "put_field"@),
            forall|j: int| 0 <= j < k ==> safe_observation(name@, #[trigger] site.observations@[j]),
        decreases site.observations@.len() - k,
    {
        let o: ShapeObservation = site.observations[k];
        let value_ok: bool = match o.value {
            ObservedType::Int32 | ObservedType::Float64 | ObservedType::Bool | ObservedType::Null
            | ObservedType::Undefined => true,
            ObservedType::Object => get,
            ObservedType::Other => false,
        };
        if !(o.prototype_identity == 0 && o.prototype_generation == 0 && !o.accessor && (!put || o.writable) && value_ok) {
            assert(!safe_observation(name@, site.observations@[k as int]));
            return false;
        }
        k = k + 1;
    }
    true
}

proof fn filter_step(arrays: Seq<ArrayFeedback>, key: FunctionKey, i: int)
    requires
        0 <= i < arrays.len(),
    ensures
        arrays.take(i + 1).filter(|site: ArrayFeedback| site.function == key) == (if arrays[i].function == key {
            arrays.take(i).filter(|site: ArrayFeedback| site.function == key).push(arrays[i])
        } else {
            arrays.take(i).filter(|site: ArrayFeedback| site.function == key)
        }),
{
    let f = |site: ArrayFeedback| site.function == key;
    assert(arrays.take(i + 1).drop_last() =~= arrays.take(i));
    reveal(Seq::filter);
}

fn array_sites(feedback: &FeedbackSnapshot, key: FunctionKey) -> (r: Vec<ArrayFeedback>)
    ensures
        r@ == feedback.arrays@.filter(|site: ArrayFeedback| site.function == key),
{
    let mut r: Vec<ArrayFeedback> = Vec::new();
    let mut i: usize = 0;
    assert(feedback.arrays@.take(0).filter(|site: ArrayFeedback| site.function == key) =~= Seq::<ArrayFeedback>::empty()) by {
        reveal(Seq::filter);
    }
    while i < feedback.arrays.len()
        invariant
            i <= feedback.arrays@.len(),
            r@ == feedback.arrays@.take(i as int).filter(|site: ArrayFeedback| site.function == key),
        decreases feedback.arrays@.len() - i,
    {
        proof {
            filter_step(feedback.arrays@, key, i as int);
        }
        if feedback.arrays[i].function == key {
            r.push(feedback.arrays[i]);
        }
        i = i + 1;
    }
    assert(feedback.arrays@.take(i as int) =~= feedback.arrays@);
    r
}

fn pool_constants(function: &VerifiedFunction) -> (r: BTreeMap<u32, TaggedValue>)
    ensures
        r@ == numeric_pool(function.constants@, function.constants@.len()),
{
    let mut r: BTreeMap<u32, TaggedValue> = BTreeMap::new();
    let mut i: usize = 0;
    while i < function.constants.len()
        invariant
            i <= function.constants@.len(),
            r@ == numeric_pool(function.constants@, i as nat),
        decreases function.constants@.len() - i,
    {
        let c: Constant = function.constants[i];
        if c.tag == JS_TAG_INT || c.tag == JS_TAG_FLOAT64 {
            r.insert(c.index, TaggedValue { payload: c.payload, tag: c.tag as i64 });
        }
        i = i + 1;
    }
    r
}

fn int_sites(function: &VerifiedFunction, key: FunctionKey, feedback: &FeedbackSnapshot) -> (r: BTreeSet<u32>)
    ensures
        forall|pc: u32| #[trigger]
            r@.contains(pc) == marks_int(*function, key, *feedback, function.instructions@.len() as int, pc),
{
    let mut r: BTreeSet<u32> = BTreeSet::new();
    let mut i: usize = 0;
    while i < function.instructions.len()
        invariant
            i <= function.instructions@.len(),
            forall|pc: u32| #[trigger] r@.contains(pc) == marks_int(*function, key, *feedback, i as int, pc),
        decreases function.instructions@.len() - i,
    {
        let ghost before = r@;
        let instruction = &function.instructions[i];
        let name: &str = instruction.name.as_str();
        let compares: bool = comparison(name);
        if compares || float_arithmetic(name) || name_is(name, "or") {
            if let Some(s) = feedback.binary_at(key, instruction.pc) {
                let expected: ObservedType = if compares {
                    ObservedType::Bool
                } else {
                    ObservedType::Int32
                };
                if always(&feedback.binaries[s], ObservedType::Int32, expected) {
                    r.insert(instruction.pc);
                }
            }
        }
        proof {
            let hit = int_site(*function, key, *feedback, i as int);
            assert(r@ == if hit { before.insert(instruction.pc) } else { before });
            assert forall|pc: u32| #[trigger] r@.contains(pc) == marks_int(*function, key, *feedback, i + 1, pc) by {
                assert(before.contains(pc) == marks_int(*function, key, *feedback, i as int, pc));
                if hit && pc == instruction.pc {
                    assert(int_site(*function, key, *feedback, i as int));
                }
            }
        }
        i = i + 1;
    }
    r
}

fn float_sites(function: &VerifiedFunction, key: FunctionKey, feedback: &FeedbackSnapshot) -> (r: BTreeSet<u32>)
    ensures
        forall|pc: u32| #[trigger]
            r@.contains(pc) == marks_float(*function, key, *feedback, function.instructions@.len() as int, pc),
{
    let mut r: BTreeSet<u32> = BTreeSet::new();
    let mut i: usize = 0;
    while i < function.instructions.len()
        invariant
            i <= function.instructions@.len(),
            forall|pc: u32| #[trigger] r@.contains(pc) == marks_float(*function, key, *feedback, i as int, pc),
        decreases function.instructions@.len() - i,
    {
        let ghost before = r@;
        let instruction = &function.instructions[i];
        if float_arithmetic(instruction.name.as_str()) {
            if let Some(s) = feedback.binary_at(key, instruction.pc) {
                if always(&feedback.binaries[s], ObservedType::Float64, ObservedType::Float64) {
                    r.insert(instruction.pc);
                }
            }
        }
        proof {
            let hit = float_site(*function, key, *feedback, i as int);
            assert(r@ == if hit { before.insert(instruction.pc) } else { before });
            assert forall|pc: u32| #[trigger] r@.contains(pc) == marks_float(*function, key, *feedback, i + 1, pc) by {
                assert(before.contains(pc) == marks_float(*function, key, *feedback, i as int, pc));
                if hit && pc == instruction.pc {
                    assert(float_site(*function, key, *feedback, i as int));
                }
            }
        }
        i = i + 1;
    }
    r
}

fn call_sites(function: &VerifiedFunction, key: FunctionKey, feedback: &FeedbackSnapshot) -> (r: BTreeMap<u32, CallSpecializationKey>)
    ensures
        forall|pc: u32| #[trigger]
            r@.contains_key(pc) == marks_call(*function, key, *feedback, function.instructions@.len() as int, pc),
        forall|pc: u32| #[trigger]
            r@.contains_key(pc) ==> r@[pc]@ == feedback.calls@[feedback.spec_call_at(key, pc)->Some_0].call@,
{
    let mut r: BTreeMap<u32, CallSpecializationKey> = BTreeMap::new();
    let mut i: usize = 0;
    while i < function.instructions.len()
        invariant
            i <= function.instructions@.len(),
            forall|pc: u32| #[trigger] r@.contains_key(pc) == marks_call(*function, key, *feedback, i as int, pc),
            forall|pc: u32| #[trigger]
                r@.contains_key(pc) ==> r@[pc]@ == feedback.calls@[feedback.spec_call_at(key, pc)->Some_0].call@,
        decreases function.instructions@.len() - i,
    {
        let ghost before = r@;
        let instruction = &function.instructions[i];
        if is_call_site(instruction.name.as_str()) {
            if let Some(s) = feedback.call_specialization_at(key, instruction.pc) {
                r.insert(instruction.pc, feedback.calls[s].call.duplicate());
            }
        }
        proof {
            let hit = call_site(*function, key, *feedback, i as int);
            assert forall|pc: u32| #[trigger] r@.contains_key(pc) == marks_call(*function, key, *feedback, i + 1, pc) by {
                assert(before.contains_key(pc) == marks_call(*function, key, *feedback, i as int, pc));
                if hit && pc == instruction.pc {
                    assert(call_site(*function, key, *feedback, i as int));
                }
            }
            assert forall|pc: u32| #[trigger] r@.contains_key(pc) implies r@[pc]@
                == feedback.calls@[feedback.spec_call_at(key, pc)->Some_0].call@ by {
                if before.contains_key(pc) {
                }
            }
        }
        i = i + 1;
    }
    r
}

fn property_sites(function: &VerifiedFunction, feedback: &FeedbackSnapshot) -> (r: BTreeMap<u32, Vec<ShapeObservation>>)
    ensures
        forall|pc: u32| #[trigger]
            r@.contains_key(pc) == marks_property(*function, *feedback, function.instructions@.len() as int, pc),
        forall|pc: u32| #[trigger]
            r@.contains_key(pc)
                ==> r@[pc]@ == feedback.properties@[feedback.spec_property_at(pc)->Some_0].observations@,
{
    let mut r: BTreeMap<u32, Vec<ShapeObservation>> = BTreeMap::new();
    let mut i: usize = 0;
    while i < function.instructions.len()
        invariant
            i <= function.instructions@.len(),
            forall|pc: u32| #[trigger] r@.contains_key(pc) == marks_property(*function, *feedback, i as int, pc),
            forall|pc: u32| #[trigger]
                r@.contains_key(pc) ==> r@[pc]@
                    == feedback.properties@[feedback.spec_property_at(pc)->Some_0].observations@,
        decreases function.instructions@.len() - i,
    {
        let ghost before = r@;
        let instruction = &function.instructions[i];
        let name: &str = instruction.name.as_str();
        if name_is(name, "get_field") || name_is(name, "put_field") {
            if let Some(s) = feedback.property_at(instruction.pc) {
                if property_is_safe(name, &feedback.properties[s]) {
                    r.insert(instruction.pc, copy_observations(&feedback.properties[s].observations));
                }
            }
        }
        proof {
            let hit = property_site(*function, *feedback, i as int);
            assert forall|pc: u32| #[trigger] r@.contains_key(pc) == marks_property(*function, *feedback, i + 1, pc) by {
                assert(before.contains_key(pc) == marks_property(*function, *feedback, i as int, pc));
                if hit && pc == instruction.pc {
                    assert(property_site(*function, *feedback, i as int));
                }
            }
            assert forall|pc: u32| #[trigger] r@.contains_key(pc) implies r@[pc]@
                == feedback.properties@[feedback.spec_property_at(pc)->Some_0].observations@ by {
                if before.contains_key(pc) {
                }
            }
        }
        i = i + 1;
    }
    r
}

fn observed_arguments(types: &Vec<ObservedType>) -> (r: Vec<EntryRepresentation>)
    ensures
        r@ == types@.map_values(|o: ObservedType| observed_entry(o)),
{
    let mut r: Vec<EntryRepresentation> = Vec::new();
    let mut i: usize = 0;
    while i < types.len()
        invariant
            i <= types@.len(),
            r@ =~= types@.take(i as int).map_values(|o: ObservedType| observed_entry(o)),
        decreases types@.len() - i,
    {
        r.push(
            match types[i] {
                ObservedType::Int32 => EntryRepresentation::Int32,
                ObservedType::Float64 => EntryRepresentation::Float64,
                ObservedType::Object => EntryRepresentation::HeapRef,
                ObservedType::Bool => EntryRepresentation::Bool,
                _ => EntryRepresentation::Any,
            },
        );
        i = i + 1;
    }
    assert(types@.take(i as int) =~= types@);
    r
}

fn signature_arguments(arguments: &Vec<FeedbackRepresentation>) -> (r: Vec<EntryRepresentation>)
    ensures
        r@ == arguments@.map_values(|o: FeedbackRepresentation| represented_entry(o)),
{
    let mut r: Vec<EntryRepresentation> = Vec::new();
    let mut i: usize = 0;
    while i < arguments.len()
        invariant
            i <= arguments@.len(),
            r@ =~= arguments@.take(i as int).map_values(|o: FeedbackRepresentation| represented_entry(o)),
        decreases arguments@.len() - i,
    {
        r.push(
            match arguments[i] {
                FeedbackRepresentation::Int32 => EntryRepresentation::Int32,
                FeedbackRepresentation::Float64 => EntryRepresentation::Float64,
                FeedbackRepresentation::HeapRef => EntryRepresentation::HeapRef,
                FeedbackRepresentation::Bool => EntryRepresentation::Bool,
            },
        );
        i = i + 1;
    }
    assert(arguments@.take(i as int) =~= arguments@);
    r
}

fn all_are(arguments: &Vec<FeedbackRepresentation>, representation: FeedbackRepresentation) -> (r: bool)
    ensures
        r == (forall|k: int| 0 <= k < arguments@.len() ==> #[trigger] arguments@[k] == representation),
{
    let mut i: usize = 0;
    while i < arguments.len()
        invariant
            i <= arguments@.len(),
            forall|k: int| 0 <= k < i ==> #[trigger] arguments@[k] == representation,
        decreases arguments@.len() - i,
    {
        if arguments[i] != representation {
            return false;
        }
        i = i + 1;
    }
    true
}

impl NumericSpecialization {
    /// Specializes a function for its feedback.
    pub fn from_feedback(function: &VerifiedFunction, key: FunctionKey, feedback: &FeedbackSnapshot) -> (r: Self)
        ensures
            specialized(r, *function, key, *feedback),
    {
        let arrays = array_sites(feedback, key);
        let calls = call_sites(function, key, feedback);
        let properties = property_sites(function, feedback);
        let numeric_constants = pool_constants(function);
        let int_pcs = int_sites(function, key, feedback);
        let argument_count: usize = function.arg_count as usize;
        if let Some(s) = feedback.bounded_specialization(key) {
            let signature = &feedback.signatures[s];
            if signature.arguments.len() == argument_count {
                let (entry, arguments, float_pcs) = match signature.result {
                    FeedbackRepresentation::Bool | FeedbackRepresentation::HeapRef => (
                        EntryRepresentation::Any,
                        Vec::new(),
                        BTreeSet::new(),
                    ),
                    FeedbackRepresentation::Int32 => (
                        if all_are(&signature.arguments, FeedbackRepresentation::Int32) {
                            EntryRepresentation::Int32
                        } else {
                            EntryRepresentation::Any
                        },
                        signature_arguments(&signature.arguments),
                        BTreeSet::new(),
                    ),
                    FeedbackRepresentation::Float64 => (
                        if all_are(&signature.arguments, FeedbackRepresentation::Float64) {
                            EntryRepresentation::Float64
                        } else {
                            EntryRepresentation::Any
                        },
                        signature_arguments(&signature.arguments),
                        float_sites(function, key, feedback),
                    ),
                };
                return NumericSpecialization {
                    key: Some(key),
                    entry,
                    arguments,
                    int_pcs,
                    float_pcs,
                    calls,
                    properties,
                    arrays,
                    numeric_constants,
                };
            }
        }
        let arguments = match feedback.call_argument_types(key) {
            Some(t) => if feedback.argument_types[t].types.len() == argument_count {
                observed_arguments(&feedback.argument_types[t].types)
            } else {
                Vec::new()
            },
            None => Vec::new(),
        };
        NumericSpecialization {
            key: Some(key),
            entry: EntryRepresentation::Any,
            arguments,
            int_pcs,
            float_pcs: BTreeSet::new(),
            calls,
            properties,
            arrays,
            numeric_constants,
        }
    }
}

/// The length of an array that was always of one dense or typed kind.
pub open spec fn guarded_length(site: ArrayFeedback) -> bool {
    &&& site.access == ArrayAccess::Length
    &&& site.can_specialize
    &&& site.only_mode matches Some(mode) && mode != ArrayMode::Generic
}

fn is_guarded_length(site: &ArrayFeedback) -> (r: bool)
    ensures
        r == guarded_length(*site),
{
    match site.only_mode {
        Some(mode) => site.access == ArrayAccess::Length && site.can_specialize && mode != ArrayMode::Generic,
        None => false,
    }
}

pub open spec fn has_guarded_length(s: NumericSpecialization, n: int) -> bool {
    exists|i: int| 0 <= i < n && guarded_length(#[trigger] s.arrays@[i])
}

pub open spec fn length_at(s: NumericSpecialization, n: int, pc: u32) -> bool {
    exists|i: int| 0 <= i < n && s.arrays@[i].pc == pc && guarded_length(#[trigger] s.arrays@[i])
}

pub open spec fn update_at(function: VerifiedFunction, n: int, pc: u32) -> bool {
    exists|i: int|
        0 <= i < n && (#[trigger] function.instructions@[i]).pc == pc && is_update(function.instructions@[i].name@)
}

/// Updates count as integer operations in a call-free loop whose values are integers.
pub open spec fn integer_updates(s: NumericSpecialization, function: VerifiedFunction) -> bool {
    &&& s.entry == EntryRepresentation::Int32 || has_guarded_length(s, s.arrays@.len() as int)
    &&& s.calls@.dom() == Set::<u32>::empty()
    &&& function.has_loop
}

/// The mode in which the scalar graph computes at `pc`.
pub open spec fn numeric_mode_at(s: NumericSpecialization, function: VerifiedFunction, pc: u32) -> Option<ScalarNumericMode> {
    if integer_updates(s, function) && update_at(function, function.instructions@.len() as int, pc) || length_at(
        s,
        s.arrays@.len() as int,
        pc,
    ) {
        Some(ScalarNumericMode::Int32)
    } else if s.float_pcs@.contains(pc) {
        Some(ScalarNumericMode::Float64)
    } else if s.int_pcs@.contains(pc) {
        Some(ScalarNumericMode::Int32)
    } else {
        None
    }
}

pub open spec fn mode_in(modes: Map<u32, ScalarNumericMode>, pc: u32) -> Option<ScalarNumericMode> {
    if modes.contains_key(pc) {
        Some(modes[pc])
    } else {
        None
    }
}

impl NumericSpecialization {
    /// The modes that the translation into scalar values starts from, at the
    /// program counters of the function's instructions and array sites.
    pub fn numeric_modes(&self, function: &VerifiedFunction) -> (r: BTreeMap<u32, ScalarNumericMode>)
        ensures
            forall|i: int|
                0 <= i < function.instructions@.len() ==> mode_in(r@, (#[trigger] function.instructions@[i]).pc)
                    == numeric_mode_at(*self, *function, function.instructions@[i].pc),
            forall|i: int|
                0 <= i < self.arrays@.len() ==> mode_in(r@, (#[trigger] self.arrays@[i]).pc) == numeric_mode_at(
                    *self,
                    *function,
                    self.arrays@[i].pc,
                ),
            forall|pc: u32| #[trigger] r@.contains_key(pc) ==> numeric_mode_at(*self, *function, pc) == Some(r@[pc]),
    {
        let mut modes: BTreeMap<u32, ScalarNumericMode> = BTreeMap::new();
        let mut i: usize = 0;
        while i < function.instructions.len()
            invariant
                i <= function.instructions@.len(),
                forall|pc: u32| #[trigger]
                    modes@.contains_key(pc)
                        ==> modes@[pc] == base_mode(*self, pc)->Some_0 && base_mode(*self, pc) is Some,
                forall|k: int|
                    0 <= k < i ==> mode_in(modes@, (#[trigger] function.instructions@[k]).pc) == base_mode(
                        *self,
                        function.instructions@[k].pc,
                    ),
            decreases function.instructions@.len() - i,
        {
            let pc: u32 = function.instructions[i].pc;
            self.insert_base_mode(&mut modes, pc);
            i = i + 1;
        }
        let ghost mid = modes@;
        let mut j: usize = 0;
        let mut found: bool = false;
        while j < self.arrays.len()
            invariant
                j <= self.arrays@.len(),
                found == has_guarded_length(*self, j as int),
                forall|pc: u32| #[trigger]
                    modes@.contains_key(pc) ==> mode_in(modes@, pc) == (if length_at(*self, j as int, pc) {
                        Some(ScalarNumericMode::Int32)
                    } else {
                        base_mode(*self, pc)
                    }),
                forall|k: int|
                    0 <= k < function.instructions@.len() ==> mode_in(modes@, (#[trigger] function.instructions@[k]).pc)
                        == (if length_at(*self, j as int, function.instructions@[k].pc) {
                        Some(ScalarNumericMode::Int32)
                    } else {
                        base_mode(*self, function.instructions@[k].pc)
                    }),
                forall|k: int|
                    0 <= k < j ==> mode_in(modes@, (#[trigger] self.arrays@[k]).pc) == (if length_at(
                        *self,
                        j as int,
                        self.arrays@[k].pc,
                    ) {
                        Some(ScalarNumericMode::Int32)
                    } else {
                        base_mode(*self, self.arrays@[k].pc)
                    }),
            decreases self.arrays@.len() - j,
        {
            let ghost before = modes@;
            let site: ArrayFeedback = self.arrays[j];
            proof {
                assert(self.arrays@[j as int] == site);
                assert forall|pc: u32| #[trigger] length_at(*self, j + 1, pc) == (length_at(*self, j as int, pc) || site.pc
                    == pc && guarded_length(site)) by {
                    if site.pc == pc && guarded_length(site) {
                        assert(guarded_length(self.arrays@[j as int]));
                    }
                }
                assert(has_guarded_length(*self, j + 1) == (found || guarded_length(site))) by {
                    if guarded_length(site) {
                        assert(guarded_length(self.arrays@[j as int]));
                    }
                }
            }
            if is_guarded_length(&site) {
                found = true;
                modes.insert(site.pc, ScalarNumericMode::Int32);
            } else if !modes.contains_key(&site.pc) {
                self.insert_base_mode(&mut modes, site.pc);
            }
            j = j + 1;
        }
        if (self.entry == EntryRepresentation::Int32 || found) && self.calls.is_empty() && function.has_loop {
            assert(self.calls@.dom() =~= Set::<u32>::empty());
            let mut k: usize = 0;
            let ghost before = modes@;
            while k < function.instructions.len()
                invariant
                    k <= function.instructions@.len(),
                    forall|pc: u32| #[trigger]
                        mode_in(modes@, pc) == (if update_at(*function, k as int, pc) {
                            Some(ScalarNumericMode::Int32)
                        } else {
                            mode_in(before, pc)
                        }),
                decreases function.instructions@.len() - k,
            {
                let ghost prior = modes@;
                let instruction = &function.instructions[k];
                if update(instruction.name.as_str()) {
                    modes.insert(instruction.pc, ScalarNumericMode::Int32);
                }
                proof {
                    assert forall|pc: u32| #[trigger] mode_in(modes@, pc) == (if update_at(*function, k + 1, pc) {
                        Some(ScalarNumericMode::Int32)
                    } else {
                        mode_in(before, pc)
                    }) by {
                        assert(mode_in(prior, pc) == (if update_at(*function, k as int, pc) {
                            Some(ScalarNumericMode::Int32)
                        } else {
                            mode_in(before, pc)
                        }));
                        if is_update(instruction.name@) && instruction.pc == pc {
                            assert(function.instructions@[k as int].pc == pc);
                        }
                    }
                }
                k = k + 1;
            }
            assert(integer_updates(*self, *function));
            assert forall|pc: u32| #[trigger] modes@.contains_key(pc) implies numeric_mode_at(*self, *function, pc) == Some(
                modes@[pc],
            ) by {
                assert(mode_in(modes@, pc) == Some(modes@[pc]));
                if !update_at(*function, function.instructions@.len() as int, pc) {
                    assert(mode_in(before, pc) is Some);
                    assert(before.contains_key(pc));
                }
            }
        } else {
            assert(!integer_updates(*self, *function));
            assert forall|pc: u32| #[trigger] modes@.contains_key(pc) implies numeric_mode_at(*self, *function, pc) == Some(
                modes@[pc],
            ) by {
                assert(mode_in(modes@, pc) == Some(modes@[pc]));
            }
        }
        modes
    }

    fn insert_base_mode(&self, modes: &mut BTreeMap<u32, ScalarNumericMode>, pc: u32)
        ensures
            final(modes)@ == (match base_mode(*self, pc) {
                Some(mode) => old(modes)@.insert(pc, mode),
                None => old(modes)@,
            }),
    {
        if self.float_pcs.contains(&pc) {
            modes.insert(pc, ScalarNumericMode::Float64);
        } else if self.int_pcs.contains(&pc) {
            modes.insert(pc, ScalarNumericMode::Int32);
        }
    }
}

spec fn base_mode(s: NumericSpecialization, pc: u32) -> Option<ScalarNumericMode> {
    if s.float_pcs@.contains(pc) {
        Some(ScalarNumericMode::Float64)
    } else if s.int_pcs@.contains(pc) {
        Some(ScalarNumericMode::Int32)
    } else {
        None
    }
}

} // verus!
