//! What opcodes on the heap ask the runtime for, and what they read and write.
use crate::code::Event;
use crate::code::State;
use crate::code::Ty;
use crate::code::World;
use crate::code::wrap;
use crate::frame::OptEnv;
use crate::frame::as_arguments;
use crate::helpers::flat_stack_slot;
use crate::helpers::poll_flow;
use crate::helpers::push_flow;
use crate::inline_laws::asks;
use crate::inline_laws::writes;
use crate::lower_values::OptVars;
use crate::opcode_laws::NodeStep;
use crate::opcode_laws::held;
use crate::opcodes::HeapKind;
use crate::opcodes::OpKind;
use crate::opcodes::op_kind;
use crate::property_access::Search;
use crate::property_access::field_access;
use crate::property_access::searched;
use crate::property_access::shape_words;
use crate::property_access::tried;
use crate::property_cache::tag_of;
use crate::provenance::OptProvenance;
use crate::runtime::ShapeObservation;
use crate::spelling::spelling;
use vstd::prelude::*;

verus! {

/// The frame's slots have numbers that fit the words of helpers.
pub open spec fn numbers_fit(env: OptEnv<'_>, depth: int) -> bool {
    0 <= depth && flat_stack_slot(env, depth) < 0x8000_0000
}

/// A helper that pushes a value is given the slot to push it into and its own
/// words behind that.
#[verifier::spinoff_prover]
#[verifier::rlimit(60)]
pub proof fn pushing_helpers_are_told_the_slot(
    env: OptEnv<'_>,
    s: State,
    provenance: Seq<OptProvenance>,
    depth: nat,
    pc: u32,
    helper: usize,
    extra: Seq<u32>,
    w: World,
)
    requires
        push_flow(env, s, provenance, depth, pc, helper as int, extra, w).running,
    ensures
        ({
            let flow = push_flow(env, s, provenance, depth, pc, helper as int, extra, w);
            let n = flow.trace.len() as int;
            &&& asks(
                flow.trace,
                n - 1,
                *env.abi,
                s.vals[env.frame as int],
                helper,
                as_arguments(seq![0, flat_stack_slot(env, depth as int) as u32] + extra),
            )
            &&& flow.trace[n - 1] matches Event::Call { result, .. } && result == 0
        }),
{
}

impl<'a> NodeStep<'a> {
    /// Control goes on with a new value on top, which the helper wrote into its
    /// slot of the frame.
    pub open spec fn pushes_from(self, w: World, helper: usize, words: Seq<int>) -> bool {
        let s = self.a.at(w)->Run_0;
        let env = *self.mx.env;
        let t = self.b.at(w)->Run_0;
        let n = t.trace.len() as int;
        let top = self.stack(self.m.depth);
        let base = s.vals[env.stack_base as int];
        &&& self.m2.depth == self.m.depth + 1
        &&& self.m2.provenance[self.m.depth] == OptProvenance::OwnedSlot
        &&& n >= 5
        &&& asks(t.trace, n - 3, *env.abi, s.vals[env.frame as int], helper, words)
        &&& t.trace[n - 2] == Event::Load { ty: Ty::I64, address: wrap(Ty::I64, base + self.m.depth * 16), value: held(t, top).0 }
        &&& t.trace[n - 1] == Event::Load {
            ty: Ty::I64,
            address: wrap(Ty::I64, base + self.m.depth * 16 + 8),
            value: held(t, top).1,
        }
    }
}

/// The name that stands behind the opcode.
pub open spec fn atom(x: NodeStep<'_>) -> int {
    x.node.bytes@[1] + 0x100 * x.node.bytes@[2] + 0x1_0000 * x.node.bytes@[3] + 0x100_0000 * x.node.bytes@[4]
}

/// A global is asked for by its name; a property by its receiver, which stays on
/// the stack, and its name. The answer becomes the top of the stack, and owns its
/// value.
#[verifier::spinoff_prover]
#[verifier::rlimit(60)]
pub proof fn globals_and_properties_are_asked_for_by_name(x: NodeStep<'_>, w: World)
    requires
        x.lowers(),
        x.a.at(w) is Run,
        x.b.at(w) is Run,
        numbers_fit(*x.mx.env, x.m.depth),
        atom(x) < 0x8000_0000,
        x.node.bytes@.len() >= 5,
    ensures
        x.named("get_var"@) ==> x.pushes_from(
            w,
            x.mx.env.abi.helper_get_global,
            seq![0int, flat_stack_slot(*x.mx.env, x.m.depth), atom(x)],
        ),
        x.named("get_field2"@) && x.m.depth > 0 ==> x.pushes_from(
            w,
            x.mx.env.abi.helper_get_property,
            seq![0int, flat_stack_slot(*x.mx.env, x.m.depth), flat_stack_slot(*x.mx.env, x.m.depth - 1), atom(x)],
        ),
{
    spelling();
    let env = *x.mx.env;
    let s = x.a.at(w)->Run_0;
    let depth = x.m.depth;
    let slot = flat_stack_slot(env, depth) as u32;
    let under = flat_stack_slot(env, depth - 1) as u32;
    let name = atom(x) as u32;
    if x.named("get_var"@) {
        assert(op_kind(x.node) == OpKind::Heap(HeapKind::Global(name)));
        let extra = seq![name];
        assert(as_arguments(seq![0, slot] + extra) =~= seq![0int, flat_stack_slot(env, depth), atom(x)]);
        assert(push_flow(env, s, x.m.provenance, depth as nat, x.node.pc, env.abi.helper_get_global as int, extra, w).running);
        pushing_helpers_are_told_the_slot(
            env,
            s,
            x.m.provenance,
            depth as nat,
            x.node.pc,
            env.abi.helper_get_global,
            extra,
            w,
        );
    } else if x.named("get_field2"@) && depth > 0 {
        assert(op_kind(x.node) == OpKind::Heap(HeapKind::PropertyBehind(name)));
        let extra = seq![under, name];
        assert(as_arguments(seq![0, slot] + extra) =~= seq![
            0int,
            flat_stack_slot(env, depth),
            flat_stack_slot(env, depth - 1),
            atom(x),
        ]);
        assert(push_flow(env, s, x.m.provenance, depth as nat, x.node.pc, env.abi.helper_get_property as int, extra, w).running);
        pushing_helpers_are_told_the_slot(
            env,
            s,
            x.m.provenance,
            depth as nat,
            x.node.pc,
            env.abi.helper_get_property,
            extra,
            w,
        );
    }
}

/// A guarded property is read and written at one place: behind as many fields as
/// its offset says. It is touched only where the field and the new value have the
/// type that was seen; a read gives what stands there.
#[verifier::spinoff_prover]
#[verifier::rlimit(60)]
pub proof fn guarded_properties_are_read_where_they_are_written(
    env: OptEnv<'_>,
    property: ShapeObservation,
    payload: int,
    input: (int, int),
    trace: Seq<Event>,
    w: World,
)
    requires
        tag_of(property.value) is Some,
    ensures
        ({
            let expected = tag_of(property.value)->Some_0;
            let load = field_access(env, property, payload, None, trace, w);
            let store = field_access(env, property, payload, Some(input), trace, w);
            let n = trace.len() as int;
            &&& load is Hit || load is Failed
            &&& load matches Search::Hit { trace: after, payload: found, tag } ==> {
                &&& tag == expected
                &&& after.len() == n + 3
                &&& after[n] matches Event::Load { address, value: fields, .. } && address == wrap(
                    Ty::I64,
                    payload + env.abi.property.object_properties,
                ) && after[n + 1] == (Event::Load {
                    ty: Ty::I64,
                    address: wrap(Ty::I64, fields + 16 * property.property_offset),
                    value: found,
                }) && after[n + 2] == (Event::Load {
                    ty: Ty::I64,
                    address: wrap(Ty::I64, fields + 16 * property.property_offset + 8),
                    value: tag,
                })
            }
            &&& store is Hit <==> load is Hit && input.1 == expected
            &&& store matches Search::Hit { trace: after, .. } ==> {
                &&& after.len() == n + 5
                &&& after[n] matches Event::Load { value: fields, .. } && writes(
                    after[n + 3],
                    fields + 16 * property.property_offset,
                    input.0,
                ) && writes(after[n + 4], fields + 16 * property.property_offset + 8, input.1)
            }
            &&& store matches Search::Failed { trace: after } ==> forall|k: int|
                n <= k < after.len() ==> (#[trigger] after[k]) is Load
        }),
{
}

/// The runtime is told the shape in two halves of each number, the low one first.
pub proof fn shapes_are_told_in_halves(slot: u32, property: ShapeObservation)
    ensures
        ({
            let words = shape_words(slot, property);
            &&& words.len() == 6
            &&& words[0] == 0
            &&& words[1] == slot
            &&& words[2] + 0x1_0000_0000 * words[3] == property.shape_identity
            &&& words[4] + 0x1_0000_0000 * words[5] == property.shape_generation
        }),
{
    halves(property.shape_identity);
    halves(property.shape_generation);
}

proof fn halves(x: u64)
    ensures
        (x as u32) + 0x1_0000_0000 * ((x >> 32u64) as u32) == x,
{
    let low = x as u32;
    let high = (x >> 32u64) as u32;
    assert(low as u64 + 0x1_0000_0000u64 * (high as u64) == x) by (bit_vector)
        requires
            low == x as u32,
            high == (x >> 32u64) as u32,
    ;
}

/// Shapes are tried in order until one fits: what was found stays found, and only
/// where none of them fits is the next one tried.
pub proof fn shapes_are_tried_in_order(
    env: OptEnv<'_>,
    s: State,
    properties: Seq<ShapeObservation>,
    helper: Option<(int, u32)>,
    object: OptVars,
    input: Option<OptVars>,
    k: nat,
    w: World,
)
    requires
        k > 0,
    ensures
        ({
            let before = searched(env, s, properties, helper, object, input, (k - 1) as nat, w);
            let after = searched(env, s, properties, helper, object, input, k, w);
            &&& !(before is Searching) ==> after == before
            &&& before matches Search::Searching { trace } ==> after == tried(
                env,
                s,
                properties[k - 1],
                helper,
                object,
                input,
                trace,
                w,
            )
        }),
        searched(env, s, properties, helper, object, input, 0, w) == (Search::Searching { trace: s.trace }),
{
}

/// Without the runtime's help a shape fits where the object holds the identity
/// that was seen and that shape the generation that was seen; what is no object
/// fails. With its help the answer decides.
#[verifier::spinoff_prover]
#[verifier::rlimit(60)]
pub proof fn shapes_fit_by_identity_and_generation(
    env: OptEnv<'_>,
    s: State,
    property: ShapeObservation,
    pointer: int,
    slot: u32,
    object: OptVars,
    trace: Seq<Event>,
    w: World,
)
    requires
        env.abi.shape_matches != env.abi.shape_differs,
    ensures
        ({
            let own = tried(env, s, property, None, object, None, trace, w);
            let asked = tried(env, s, property, Some((pointer, slot)), object, None, trace, w);
            let payload = s.vars[object.payload as int];
            let n = trace.len() as int;
            let identity = wrap(Ty::I64, (w.observe)(n));
            let generation = wrap(Ty::I64, (w.observe)(n + 1));
            let answer = wrap(Ty::I32, (w.observe)(n));
            &&& s.vars[object.tag as int] != -1 ==> own is Failed
            &&& s.vars[object.tag as int] == -1 && (identity != property.shape_identity as i64 || generation
                != property.shape_generation as i64) ==> own is Searching
            &&& own is Hit ==> s.vars[object.tag as int] == -1 && identity == property.shape_identity as i64 && generation
                == property.shape_generation as i64
            &&& answer == env.abi.shape_differs <==> asked is Searching
            &&& answer != env.abi.shape_matches && answer != env.abi.shape_differs <==> asked is Raised
            &&& asked is Hit ==> answer == env.abi.shape_matches
        }),
{
}

/// A poll asks the runtime, and goes on where it answers zero; otherwise the
/// function leaves as interrupted.
#[verifier::spinoff_prover]
#[verifier::rlimit(60)]
pub proof fn polls_ask_the_runtime(env: OptEnv<'_>, s: State, trace: Seq<Event>, pc: u32, w: World)
    ensures
        ({
            let flow = poll_flow(env, s, trace, pc, w);
            let n = trace.len() as int;
            &&& asks(flow.trace, n + 2, *env.abi, s.vals[env.frame as int], env.abi.helper_poll, Seq::empty())
            &&& flow.trace[n + 2] matches Event::Call { result, .. } && (flow.running <==> result == 0)
            &&& flow.running ==> flow.trace.len() == n + 3
            &&& !flow.running ==> flow.trace[n + 4] == Event::Store {
                ty: Ty::I32,
                address: wrap(Ty::I64, s.vals[env.sret as int]),
                value: wrap(Ty::I32, env.abi.exit_interrupt as int),
            }
        }),
{
}

/// An element is read by the key on top from the object below it, and takes their
/// place; an element is written from the top, by the key below it, into the object
/// below that, and all three leave the stack. Either leaves the function where the
/// object or the key is none.
#[verifier::spinoff_prover]
#[verifier::rlimit(60)]
pub proof fn elements_are_accessed_by_object_and_key(x: NodeStep<'_>, w: World)
    requires
        x.lowers(),
        x.a.at(w) is Run,
        x.b.at(w) is Run,
    ensures
        x.named("get_array_el"@) && x.m.depth >= 2 ==> {
            let s = x.a.at(w)->Run_0;
            &&& held(s, x.stack(x.m.depth - 2)).1 == -1
            &&& held(s, x.stack(x.m.depth - 1)).1 == 0
            &&& x.m2.depth == x.m.depth - 1
            &&& held(x.b.at(w)->Run_0, x.stack(x.m.depth - 2)).1 >= 0 || held(x.b.at(w)->Run_0, x.stack(x.m.depth - 2)).1 == 8
        },
        x.named("put_array_el"@) && x.m.depth >= 3 ==> {
            let s = x.a.at(w)->Run_0;
            &&& held(s, x.stack(x.m.depth - 2)).1 == 0
            &&& held(s, x.stack(x.m.depth - 1)).1 >= 0
            &&& x.m2.depth == x.m.depth - 3
        },
{
    spelling();
    if x.named("get_array_el"@) {
        assert(op_kind(x.node) == OpKind::Heap(HeapKind::ElementLoad));
    } else if x.named("put_array_el"@) {
        assert(op_kind(x.node) == OpKind::Heap(HeapKind::ElementStore));
    }
}

} // verus!
