//! Guarded property accesses that are not promoted.
use crate::checks::read;
use crate::checks::require;
use crate::checks::seen;
use crate::checks::waits_at;
use crate::code::agree;
use crate::code::value;
use crate::code::waits_for_known_blocks;
use crate::code::wrap;
use crate::code::BinaryOp;
use crate::code::kept;
use crate::code::Code;
use crate::code::Event;
use crate::code::IntCc;
use crate::code::State;
use crate::code::Status;
use crate::code::Ty;
use crate::code::World;
use crate::control::CompileFailure;
use crate::elements::publish_frame;
use crate::elements::published;
use crate::exits::opt_own_stack_for_exit;
use crate::exits::own_flow;
use crate::exits::own_failure;
use crate::exits::pc_address;
use crate::exits::pc_store;
use crate::exits::same_own_flow;
use crate::exits::set_pc;
use crate::exits::slot_stores;
use crate::exits::stack_ownable;
use crate::exits::store_slots;
use crate::frame::as_arguments;
use crate::frame::call_through;
use crate::frame::emit_opt_exit;
use crate::frame::exit_record;
use crate::frame::exits_with;
use crate::frame::flows;
use crate::frame::helper_known;
use crate::frame::helper_pointer;
use crate::frame::opt_set_stack_top;
use crate::frame::pointer_reads;
use crate::frame::runs_on;
use crate::frame::top_store;
use crate::frame::Flow;
use crate::frame::OptEnv;
use crate::helpers::alias_slots;
use crate::helpers::flat_stack_slot;
use crate::helpers::free_flow;
use crate::helpers::is_borrowed;
use crate::helpers::opt_release_materialized_aliases;
use crate::helpers::opt_release_owned_stack;
use crate::helpers::same_free;
use crate::helpers::stack_slots;
use crate::lower_values::group_truths;
use crate::lower_values::opt_define;
use crate::lower_values::opt_store;
use crate::lower_values::opt_store_at;
use crate::lower_values::opt_tag_is;
use crate::lower_values::opt_use;
use crate::lower_values::pair_stores;
use crate::lower_values::vars_after;
use crate::lower_values::OptPair;
use crate::lower_values::OptVars;
use crate::property_cache::addressable;
use crate::property_cache::field_offset;
use crate::property_cache::prefix_stores;
use crate::property_cache::primitive_tag;
use crate::property_cache::publish_prefix;
use crate::property_cache::shape_fits;
use crate::property_cache::shape_flag;
use crate::property_cache::shape_reads;
use crate::property_cache::tag_of;
use crate::provenance::OptProvenance;
use crate::qjs::JS_TAG_OBJECT;
use crate::runtime::ShapeObservation;
use crate::typing::steady;
use crate::typing::closing;
use crate::typing::calm;
use crate::assemble::Known;
use crate::frame_typing::pair_held;
use crate::frame_typing::slot_named;
use crate::frame_typing::slots_named;
use crate::frame_typing::cached_named;
use crate::frame_typing::cache_named;
use crate::frame_typing::word_types;
use vstd::prelude::*;

verus! {

broadcast use {crate::typing::group_typing, crate::frame_typing::group_frame, crate::exits::own_failures};

/// How far a search through the observed shapes has come.
#[allow(inconsistent_fields)]
pub enum Search {
    Searching { trace: Seq<Event> },
    Hit { trace: Seq<Event>, payload: int, tag: int },
    Failed { trace: Seq<Event> },
    Raised { trace: Seq<Event> },
}

/// Where the search's outcomes lead.
#[derive(Clone, Copy)]
pub struct SearchBlocks {
    pub hit: usize,
    pub failed: usize,
    pub raised: usize,
}

pub open spec fn located(st: Status, s: State, n: int, search: Search, blocks: SearchBlocks) -> bool {
    match search {
        Search::Searching { trace } => runs_on(st, s, n, s.vars, trace),
        Search::Hit { trace, payload, tag } => {
            &&& st matches Status::Wait { block, args, state }
            &&& block == blocks.hit
            &&& args == seq![payload, tag]
            &&& state.vars == s.vars
            &&& state.trace == trace
            &&& agree(s, state, n)
        },
        Search::Failed { trace } => waits_at(st, s, n, blocks.failed, s.vars, trace),
        Search::Raised { trace } => waits_at(st, s, n, blocks.raised, s.vars, trace),
    }
}

/// Reads the field of an object whose shape is as observed, or writes it where
/// `input` is given. A value or field with another tag fails before the write.
pub open spec fn field_access(
    env: OptEnv<'_>,
    property: ShapeObservation,
    payload: int,
    input: Option<(int, int)>,
    trace: Seq<Event>,
    w: World,
) -> Search {
    let expected = tag_of(property.value)->Some_0;
    let t1 = read(trace, Ty::I64, payload + env.abi.property.object_properties, w);
    let address = seen(trace, Ty::I64, w) + property.property_offset * 16;
    let p = seen(t1, Ty::I64, w);
    let t2 = read(t1, Ty::I64, address, w);
    let t = seen(t2, Ty::I64, w);
    let t3 = read(t2, Ty::I64, address + 8, w);
    if t != expected || (input matches Some((_, tag)) && tag != expected) {
        Search::Failed { trace: t3 }
    } else {
        match input {
            Some((new_payload, new_tag)) => Search::Hit {
                trace: pair_stores(t3, address, new_payload, new_tag),
                payload: new_payload,
                tag: new_tag,
            },
            None => Search::Hit { trace: t3, payload: p, tag: t },
        }
    }
}

/// The 32-bit words in which the runtime is asked for a shape.
pub open spec fn shape_words(slot: u32, property: ShapeObservation) -> Seq<u32> {
    seq![
        0,
        slot,
        property.shape_identity as u32,
        (property.shape_identity >> 32u64) as u32,
        property.shape_generation as u32,
        (property.shape_generation >> 32u64) as u32,
    ]
}

/// The address and the slot with which the runtime is asked.
pub open spec fn helper_in(s: State, helper: Option<(usize, u32)>) -> Option<(int, u32)> {
    match helper {
        Some((pointer, slot)) => Some((s.vals[pointer as int], slot)),
        None => None,
    }
}

/// The code has tried the first `k` observed shapes.
pub open spec fn searched_to(
    env: OptEnv<'_>,
    st: Status,
    st2: Status,
    n: int,
    properties: Seq<ShapeObservation>,
    helper: Option<(usize, u32)>,
    object: OptVars,
    input: Option<OptVars>,
    k: nat,
    blocks: SearchBlocks,
    w: World,
) -> bool {
    match st {
        Status::Run(s) => located(st2, s, n, searched(env, s, properties, helper_in(s, helper), object, input, k, w), blocks),
        st => st2 == st,
    }
}

/// Tries one observed shape: in place where the receiver is borrowed, through
/// the runtime otherwise.
pub open spec fn tried(
    env: OptEnv<'_>,
    s: State,
    property: ShapeObservation,
    helper: Option<(int, u32)>,
    object: OptVars,
    input: Option<OptVars>,
    trace: Seq<Event>,
    w: World,
) -> Search {
    let payload = s.vars[object.payload as int];
    let entered = match input {
        Some(slot) => Some((s.vars[slot.payload as int], s.vars[slot.tag as int])),
        None => None,
    };
    match helper {
        None => if s.vars[object.tag as int] != JS_TAG_OBJECT {
            Search::Failed { trace }
        } else if shape_fits(*env.abi, property, payload, trace, w) {
            field_access(env, property, payload, entered, shape_reads(*env.abi, payload, trace, w), w)
        } else {
            Search::Searching { trace: shape_reads(*env.abi, payload, trace, w) }
        },
        Some((pointer, slot)) => {
            let status = seen(trace, Ty::I32, w);
            let asked = trace.push(
                Event::Call {
                    callee: pointer,
                    args: seq![s.vals[env.frame as int]] + as_arguments(shape_words(slot, property)),
                    result: status,
                },
            );
            if status == env.abi.shape_matches {
                field_access(env, property, payload, entered, asked, w)
            } else if status == env.abi.shape_differs {
                Search::Searching { trace: asked }
            } else {
                Search::Raised { trace: asked }
            }
        },
    }
}

/// Tries the first `k` observed shapes in order.
pub open spec fn searched(
    env: OptEnv<'_>,
    s: State,
    properties: Seq<ShapeObservation>,
    helper: Option<(int, u32)>,
    object: OptVars,
    input: Option<OptVars>,
    k: nat,
    w: World,
) -> Search
    decreases k,
{
    if k == 0 {
        Search::Searching { trace: s.trace }
    } else {
        match searched(env, s, properties, helper, object, input, (k - 1) as nat, w) {
            Search::Searching { trace } => tried(env, s, properties[k - 1], helper, object, input, trace, w),
            other => other,
        }
    }
}

/// A property of which the code can be emitted.
pub open spec fn property_failure(borrowed: bool, property: ShapeObservation) -> Option<CompileFailure> {
    if borrowed && property.shape_generation == 0 {
        Some(CompileFailure::InvalidArtifact)
    } else if !addressable(property.property_offset) {
        Some(CompileFailure::ResourceLimit)
    } else if tag_of(property.value) is None {
        Some(CompileFailure::InvalidArtifact)
    } else {
        None
    }
}

pub open spec fn properties_failure(borrowed: bool, properties: Seq<ShapeObservation>, k: nat) -> Option<CompileFailure>
    decreases k,
{
    if k == 0 {
        None
    } else {
        match properties_failure(borrowed, properties, (k - 1) as nat) {
            Some(e) => Some(e),
            None => property_failure(borrowed, properties[k - 1]),
        }
    }
}

proof fn properties_failure_stays(borrowed: bool, properties: Seq<ShapeObservation>, k: nat, n: nat)
    requires
        properties_failure(borrowed, properties, k) is Some,
        k <= n,
    ensures
        properties_failure(borrowed, properties, n) == properties_failure(borrowed, properties, k),
    decreases n,
{
    if k < n {
        properties_failure_stays(borrowed, properties, k, (n - 1) as nat);
    }
}

/// Emits the access of a field whose object's shape has been checked.
#[verifier::rlimit(30)]
fn access_field(
    code: &mut Code,
    env: &OptEnv<'_>,
    property: ShapeObservation,
    offset: i32,
    expected: i32,
    object: OptVars,
    input: Option<OptVars>,
    blocks: SearchBlocks,
)
    requires
        offset == property.property_offset * 16,
        tag_of(property.value) == Some(expected as int),
        offset <= 0x7fff_fff0,
        blocks.hit < old(code).len(),
        blocks.failed < old(code).len(),
    ensures
        kept(*old(code), *final(code)),
        env.typed(*old(code)) && slot_named(*old(code), object, Ty::I64)
            && (input matches Some(slot) ==> slot_named(*old(code), slot, Ty::I64))
            && old(code).blocked(blocks.hit) && old(code).blocked(blocks.failed)
            && old(code).blocked(blocks.raised)
            ==> closing(*old(code), *final(code)),
        final(code).len() > old(code).len(),
        forall|w: World|
            #![trigger final(code).at(w)]
            match old(code).at(w) {
                Status::Run(s) => located(
                    final(code).at(w),
                    s,
                    old(code).len(),
                    field_access(
                        *env,
                        property,
                        s.vars[object.payload as int],
                        if input is Some {
                            Some((s.vars[input->Some_0.payload as int], s.vars[input->Some_0.tag as int]))
                        } else {
                            None
                        },
                        s.trace,
                        w,
                    ),
                    blocks,
                ),
                st => final(code).at(w) == st,
            },
{
    broadcast use group_truths;

    let receiver = opt_use(code, object, Ty::I64);
    let props = code.load(Ty::I64, receiver.payload, env.abi.property.object_properties);
    let payload = code.load(Ty::I64, props, offset);
    let tag = code.load(Ty::I64, props, offset + 8);
    let current_ok = opt_tag_is(code, tag, expected);
    let ghost c1 = *code;
    match input {
        Some(slot) => {
            let pair = opt_use(code, slot, Ty::I64);
            let input_ok = opt_tag_is(code, pair.tag, expected);
            let tags_ok = code.binary(BinaryOp::And, Ty::I8, current_ok, input_ok);
            require(code, tags_ok, blocks.failed);
            let ghost c2 = *code;
            opt_store_at(code, props, offset, pair, Ty::I64);
            let ghost c3 = *code;
            code.jump_pair(blocks.hit, pair.payload, pair.tag);
            proof {
                assert forall|w: World|
                    #![trigger code.at(w)]
                    match old(code).at(w) {
                        Status::Run(s) => located(
                            code.at(w),
                            s,
                            old(code).len(),
                            field_access(
                                *env,
                                property,
                                s.vars[object.payload as int],
                                Some((s.vars[slot.payload as int], s.vars[slot.tag as int])),
                                s.trace,
                                w,
                            ),
                            blocks,
                        ),
                        st => code.at(w) == st,
                    } by {
                    let a1 = c1.at(w);
                    let a2 = c2.at(w);
                    let a3 = c3.at(w);
                }
            }
        },
        None => {
            require(code, current_ok, blocks.failed);
            code.jump_pair(blocks.hit, payload, tag);
        },
    }
}

/// Emits the trial of one observed shape.
fn try_shape(
    code: &mut Code,
    env: &OptEnv<'_>,
    property: ShapeObservation,
    offset: i32,
    expected: i32,
    helper: Option<(usize, u32)>,
    object: OptVars,
    input: Option<OptVars>,
    blocks: SearchBlocks,
)
    requires
        env.wf(old(code).len()),
        offset == property.property_offset * 16,
        tag_of(property.value) == Some(expected as int),
        offset <= 0x7fff_fff0,
        blocks.hit < old(code).len(),
        blocks.failed < old(code).len(),
        blocks.raised < old(code).len(),
        helper matches Some((pointer, _)) ==> pointer < old(code).len() && helper_known(*env, env.abi.helper_shape_guard),
    ensures
        kept(*old(code), *final(code)),
        env.typed(*old(code)) && slot_named(*old(code), object, Ty::I64)
            && (input matches Some(slot) ==> slot_named(*old(code), slot, Ty::I64))
            && (helper matches Some((pointer, _)) ==> old(code).holds(pointer, Ty::I64))
            && old(code).blocked(blocks.hit) && old(code).blocked(blocks.failed)
            && old(code).blocked(blocks.raised)
            ==> steady(*old(code), *final(code)),
        final(code).len() > old(code).len(),
        forall|w: World|
            #![trigger final(code).at(w)]
            match old(code).at(w) {
                Status::Run(s) => located(
                    final(code).at(w),
                    s,
                    old(code).len(),
                    tried(
                        *env,
                        s,
                        property,
                        helper_in(s, helper),
                        object,
                        input,
                        s.trace,
                        w,
                    ),
                    blocks,
                ),
                st => final(code).at(w) == st,
            },
{
    let access = code.new_block();
    let next = code.new_block();
    let ghost c0 = *code;
    match helper {
        None => {
            let receiver = opt_use(code, object, Ty::I64);
            let is_object = opt_tag_is(code, receiver.tag, JS_TAG_OBJECT);
            require(code, is_object, blocks.failed);
            let ghost b1 = *code;
            let fits = shape_flag(code, env.abi, property, receiver.payload);
            let ghost b2 = *code;
            code.branch(fits, access, next);
            proof {
                assert forall|w: World|
                    #![trigger code.at(w)]
                    match c0.at(w) {
                        Status::Run(s) => if s.vars[object.tag as int] != JS_TAG_OBJECT {
                            waits_at(code.at(w), s, c0.len(), blocks.failed, s.vars, s.trace)
                        } else {
                            let payload = s.vars[object.payload as int];
                            waits_at(
                                code.at(w),
                                s,
                                c0.len(),
                                if shape_fits(*env.abi, property, payload, s.trace, w) {
                                    access
                                } else {
                                    next
                                },
                                s.vars,
                                shape_reads(*env.abi, payload, s.trace, w),
                            )
                        },
                        st => code.at(w) == st,
                    } by {
                    let a1 = b1.at(w);
                    let a2 = b2.at(w);
                }
            }
        },
        Some((pointer, slot)) => {
            let mut words: Vec<u32> = Vec::new();
            words.push(0);
            words.push(slot);
            words.push(property.shape_identity as u32);
            words.push((property.shape_identity >> 32u64) as u32);
            words.push(property.shape_generation as u32);
            words.push((property.shape_generation >> 32u64) as u32);
            let status = call_through(code, env, env.helper_signatures[env.abi.helper_shape_guard], pointer, &words);
            let ghost b1 = *code;
            let ok = code.compare_imm(IntCc::Equal, Ty::I32, status, env.abi.shape_matches);
            let other = code.new_block();
            code.branch(ok, access, other);
            let _ = code.switch_to(other);
            let miss = code.compare_imm(IntCc::Equal, Ty::I32, status, env.abi.shape_differs);
            code.branch(miss, next, blocks.raised);
            proof {
                assert(words@ =~= shape_words(slot, property));
                assert forall|w: World|
                    #![trigger code.at(w)]
                    match c0.at(w) {
                        Status::Run(s) => {
                            let answer = seen(s.trace, Ty::I32, w);
                            waits_at(
                                code.at(w),
                                s,
                                c0.len(),
                                if answer == env.abi.shape_matches {
                                    access
                                } else if answer == env.abi.shape_differs {
                                    next
                                } else {
                                    blocks.raised
                                },
                                s.vars,
                                s.trace.push(
                                    Event::Call {
                                        callee: s.vals[pointer as int],
                                        args: seq![s.vals[env.frame as int]] + as_arguments(shape_words(slot, property)),
                                        result: answer,
                                    },
                                ),
                            )
                        },
                        st => code.at(w) == st,
                    } by {
                    waits_for_known_blocks(c0.insts@, w);
                    let a1 = b1.at(w);
                }
            }
        },
    }
    let ghost c1 = *code;
    let _ = code.switch_to(access);
    let ghost c2 = *code;
    access_field(code, env, property, offset, expected, object, input, blocks);
    let ghost c3 = *code;
    let _ = code.switch_to(next);
    proof {
        assert forall|w: World|
            #![trigger code.at(w)]
            match old(code).at(w) {
                Status::Run(s) => located(
                    code.at(w),
                    s,
                    old(code).len(),
                    tried(
                        *env,
                        s,
                        property,
                        helper_in(s, helper),
                        object,
                        input,
                        s.trace,
                        w,
                    ),
                    blocks,
                ),
                st => code.at(w) == st,
            } by {
            waits_for_known_blocks(old(code).insts@, w);
            let a0 = c0.at(w);
            let a1 = c1.at(w);
            let a2 = c2.at(w);
            let a3 = c3.at(w);
        }
    }
}

/// Emits the search through all observed shapes; control that finds none is at
/// `failed`.
#[verifier::rlimit(60)]
fn search_shapes(
    code: &mut Code,
    env: &OptEnv<'_>,
    properties: &Vec<ShapeObservation>,
    helper: Option<(usize, u32)>,
    object: OptVars,
    input: Option<OptVars>,
    blocks: SearchBlocks,
) -> (r: Result<(), CompileFailure>)
    requires
        env.wf(old(code).len()),
        blocks.hit < old(code).len(),
        blocks.failed < old(code).len(),
        blocks.raised < old(code).len(),
        helper matches Some((pointer, _)) ==> pointer < old(code).len() && helper_known(*env, env.abi.helper_shape_guard),
    ensures
        kept(*old(code), *final(code)),
        r is Ok && env.typed(*old(code)) && slot_named(*old(code), object, Ty::I64)
            && (input matches Some(slot) ==> slot_named(*old(code), slot, Ty::I64))
            && (helper matches Some((pointer, _)) ==> old(code).holds(pointer, Ty::I64))
            && old(code).blocked(blocks.hit) && old(code).blocked(blocks.failed)
            && old(code).blocked(blocks.raised)
            ==> closing(*old(code), *final(code)),
        r is Ok <==> properties_failure(helper is None, properties@, properties@.len()) is None,
        properties_failure(helper is None, properties@, properties@.len()) matches Some(e) ==> r == Err::<(), CompileFailure>(e),
        final(code).len() >= old(code).len(),
        r is Ok ==> forall|w: World|
            #![trigger final(code).at(w)]
            match old(code).at(w) {
                Status::Run(s) => {
                    let found = searched(
                        *env,
                        s,
                        properties@,
                        helper_in(s, helper),
                        object,
                        input,
                        properties@.len(),
                        w,
                    );
                    match found {
                        Search::Searching { trace } => waits_at(
                            final(code).at(w),
                            s,
                            old(code).len(),
                            blocks.failed,
                            s.vars,
                            trace,
                        ),
                        other => located(final(code).at(w), s, old(code).len(), other, blocks),
                    }
                },
                st => final(code).at(w) == st,
            },
{
    let mut i: usize = 0;
    while i < properties.len()
        invariant
            kept(*old(code), *code),
            env.typed(*old(code)) && slot_named(*old(code), object, Ty::I64)
                && (input matches Some(slot) ==> slot_named(*old(code), slot, Ty::I64))
                && (helper matches Some((pointer, _)) ==> old(code).holds(pointer, Ty::I64))
                && old(code).blocked(blocks.hit) && old(code).blocked(blocks.failed)
                && old(code).blocked(blocks.raised)
                ==> steady(*old(code), *code),
            env.typed(*old(code)) && slot_named(*old(code), object, Ty::I64)
                && (input matches Some(slot) ==> slot_named(*old(code), slot, Ty::I64))
                && (helper matches Some((pointer, _)) ==> old(code).holds(pointer, Ty::I64))
                && old(code).blocked(blocks.hit) && old(code).blocked(blocks.failed)
                && old(code).blocked(blocks.raised)
                ==> env.typed(*code) && slot_named(*code, object, Ty::I64)
                    && (input matches Some(slot) ==> slot_named(*code, slot, Ty::I64))
                    && (helper matches Some((pointer, _)) ==> code.holds(pointer, Ty::I64))
                    && code.blocked(blocks.hit) && code.blocked(blocks.failed) && code.blocked(blocks.raised),
            i <= properties@.len(),
            env.wf(old(code).len()),
            old(code).len() <= code.len(),
            blocks.hit < old(code).len(),
            blocks.failed < old(code).len(),
            blocks.raised < old(code).len(),
            helper matches Some((pointer, _)) ==> pointer < old(code).len() && helper_known(*env, env.abi.helper_shape_guard),
            properties_failure(helper is None, properties@, i as nat) is None,
            forall|w: World|
                #![trigger code.at(w)]
                searched_to(*env, old(code).at(w), code.at(w), old(code).len(), properties@, helper, object, input, i as nat, blocks, w),
        decreases properties@.len() - i,
    {
        let property = properties[i];
        proof {
            assert(properties_failure(helper is None, properties@, (i + 1) as nat) == property_failure(helper is None, property));
            if property_failure(helper is None, property) is Some {
                properties_failure_stays(helper is None, properties@, (i + 1) as nat, properties@.len());
            }
        }
        if helper.is_none() && property.shape_generation == 0 {
            return Err(CompileFailure::InvalidArtifact);
        }
        let offset = match field_offset(property.property_offset) {
            Ok(offset) => offset,
            Err(e) => return Err(e),
        };
        let expected = match primitive_tag(property.value) {
            Ok(tag) => tag,
            Err(e) => return Err(e),
        };
        let ghost before = *code;
        try_shape(code, env, property, offset, expected, helper, object, input, blocks);
        proof {
            assert forall|w: World|
                #![trigger code.at(w)]
                searched_to(*env, old(code).at(w), code.at(w), old(code).len(), properties@, helper, object, input, (i + 1) as nat, blocks, w) by {
                search_step(
                    *env,
                    old(code).at(w),
                    before.at(w),
                    code.at(w),
                    old(code).len(),
                    before.len(),
                    properties@,
                    helper,
                    object,
                    input,
                    i as nat,
                    blocks,
                    w,
                );
            }
        }
        i = i + 1;
    }
    let ghost looped = *code;
    code.jump(blocks.failed);
    proof {
        assert forall|w: World|
            #![trigger code.at(w)]
            match old(code).at(w) {
                Status::Run(s) => {
                    let found = searched(
                        *env,
                        s,
                        properties@,
                        helper_in(s, helper),
                        object,
                        input,
                        properties@.len(),
                        w,
                    );
                    match found {
                        Search::Searching { trace } => waits_at(code.at(w), s, old(code).len(), blocks.failed, s.vars, trace),
                        other => located(code.at(w), s, old(code).len(), other, blocks),
                    }
                },
                st => code.at(w) == st,
            } by {
            let l = looped.at(w);
        }
    }
    Ok(())
}

proof fn search_step(
    env: OptEnv<'_>,
    st: Status,
    b: Status,
    c: Status,
    n: int,
    m: int,
    properties: Seq<ShapeObservation>,
    helper: Option<(usize, u32)>,
    object: OptVars,
    input: Option<OptVars>,
    k: nat,
    blocks: SearchBlocks,
    w: World,
)
    requires
        env.frame < n <= m,
        helper matches Some((pointer, _)) ==> pointer < n,
        searched_to(env, st, b, n, properties, helper, object, input, k, blocks, w),
        match b {
            Status::Run(t) => located(
                c,
                t,
                m,
                tried(env, t, properties[k as int], helper_in(t, helper), object, input, t.trace, w),
                blocks,
            ),
            _ => c == b,
        },
    ensures
        searched_to(env, st, c, n, properties, helper, object, input, k + 1, blocks, w),
{
    if let Status::Run(s) = st {
        if let Status::Run(t) = b {
            assert(helper_in(s, helper) == helper_in(t, helper));
            let h = helper_in(s, helper);
            assert(searched(env, s, properties, h, object, input, k, w) == (Search::Searching { trace: t.trace }));
            assert(tried(env, s, properties[k as int], h, object, input, t.trace, w) == tried(
                env,
                t,
                properties[k as int],
                h,
                object,
                input,
                t.trace,
                w,
            ));
            assert(searched(env, s, properties, h, object, input, k + 1, w) == tried(
                env,
                t,
                properties[k as int],
                h,
                object,
                input,
                t.trace,
                w,
            ));
        } else {
            assert(searched(env, s, properties, helper_in(s, helper), object, input, k + 1, w) == searched(
                env,
                s,
                properties,
                helper_in(s, helper),
                object,
                input,
                k,
                w,
            ));
        }
    }
}

/// The exit of a failed access. A borrowed receiver was never published, so the
/// frame is rebuilt first.
pub open spec fn property_deopt(
    env: OptEnv<'_>,
    s: State,
    borrowed: bool,
    provenance: Seq<OptProvenance>,
    depth: nat,
    pc: u32,
    guard: u32,
    trace: Seq<Event>,
    w: World,
) -> Seq<Event> {
    let frame = s.vals[env.frame as int];
    let base = s.vals[env.stack_base as int];
    let spilled = slot_stores(
        slot_stores(trace, s.vals[env.arg_buf as int], s.vars, env.arguments@, env.arguments@.len()),
        s.vals[env.var_buf as int],
        s.vars,
        env.locals@,
        env.locals@.len(),
    );
    let topped = top_store(pc_store(spilled, *env.abi, frame, pc, w), *env.abi, frame, base, 0);
    let owned = own_flow(slot_stores(topped, base, s.vars, env.stack@, depth), env, s, provenance, depth, w);
    let ready = if borrowed {
        owned
    } else {
        Flow { running: true, trace }
    };
    if ready.running {
        exit_record(
            pc_store(ready.trace, *env.abi, frame, pc, w),
            *env.abi,
            s.vals[env.sret as int],
            env.abi.exit_deopt,
            pc_address(ready.trace, pc, w),
            guard,
        )
    } else {
        ready.trace
    }
}

fn emit_property_deopt(
    code: &mut Code,
    env: &OptEnv<'_>,
    borrowed: bool,
    provenance: &Vec<OptProvenance>,
    depth: usize,
    pc: u32,
    guard: u32,
) -> (r: Result<(), CompileFailure>)
    requires
        env.wf(old(code).len()),
        depth <= env.stack@.len(),
    ensures
        kept(*old(code), *final(code)),
        r is Ok && env.typed(*old(code)) ==> closing(*old(code), *final(code)),
        r is Ok <==> !borrowed || stack_ownable(*env, provenance@, depth as int),
        r matches Err(e) ==> e == own_failure(*env, provenance@, depth as int),
        final(code).len() >= old(code).len(),
        r is Ok ==> forall|w: World|
            #![trigger final(code).at(w)]
            match old(code).at(w) {
                Status::Run(s) => exits_with(
                    final(code).at(w),
                    property_deopt(*env, s, borrowed, provenance@, depth as nat, pc, guard, s.trace, w),
                ),
                st => final(code).at(w) == st,
            },
{
    let ghost mut ready = *code;
    if borrowed {
        store_slots(code, env.arg_buf, env.arguments, env.arguments.len(), env.payload_type);
        let ghost c1 = *code;
        store_slots(code, env.var_buf, env.locals, env.locals.len(), env.payload_type);
        let ghost c2 = *code;
        let _ = set_pc(code, env, pc);
        let ghost c3 = *code;
        opt_set_stack_top(code, env, 0);
        let ghost c4 = *code;
        store_slots(code, env.stack_base, env.stack, depth, env.payload_type);
        let ghost c5 = *code;
        if let Err(e) = opt_own_stack_for_exit(code, env, depth, provenance) {
            return Err(e);
        }
        proof {
            ready = *code;
            assert forall|w: World|
                #![trigger ready.at(w)]
                match old(code).at(w) {
                    Status::Run(s) => {
                        let frame = s.vals[env.frame as int];
                        let base = s.vals[env.stack_base as int];
                        let spilled = slot_stores(
                            slot_stores(s.trace, s.vals[env.arg_buf as int], s.vars, env.arguments@, env.arguments@.len()),
                            s.vals[env.var_buf as int],
                            s.vars,
                            env.locals@,
                            env.locals@.len(),
                        );
                        let topped = top_store(pc_store(spilled, *env.abi, frame, pc, w), *env.abi, frame, base, 0);
                        flows(
                            ready.at(w),
                            s,
                            old(code).len(),
                            s.vars,
                            own_flow(
                                slot_stores(topped, base, s.vars, env.stack@, depth as nat),
                                *env,
                                s,
                                provenance@,
                                depth as nat,
                                w,
                            ),
                        )
                    },
                    st => ready.at(w) == st,
                } by {
                let a1 = c1.at(w);
                let a2 = c2.at(w);
                let a3 = c3.at(w);
                let a4 = c4.at(w);
                let a5 = c5.at(w);
                if let Status::Run(s) = old(code).at(w) {
                    same_own_flow(a5->Run_0.trace, *env, s, a5->Run_0, provenance@, depth as nat, w);
                }
            }
        }
    }
    let resume = set_pc(code, env, pc);
    let ghost c6 = *code;
    emit_opt_exit(code, env, env.abi.exit_deopt, Some(resume), guard);
    proof {
        assert forall|w: World|
            #![trigger code.at(w)]
            match old(code).at(w) {
                Status::Run(s) => exits_with(
                    code.at(w),
                    property_deopt(*env, s, borrowed, provenance@, depth as nat, pc, guard, s.trace, w),
                ),
                st => code.at(w) == st,
            } by {
            let a0 = ready.at(w);
            let a6 = c6.at(w);
        }
    }
    Ok(())
}

/// What happens to the stack below a successful access: borrowed aliases stay
/// placeholders, or the owners that were made for the runtime are released.
pub open spec fn released(
    env: OptEnv<'_>,
    s: State,
    borrowed: bool,
    provenance: Seq<OptProvenance>,
    object: int,
    depth: int,
    trace: Seq<Event>,
    w: World,
) -> Flow {
    let frame = s.vals[env.frame as int];
    let base = s.vals[env.stack_base as int];
    if borrowed {
        Flow {
            running: true,
            trace: top_store(
                prefix_stores(trace, base, s.vars, env.stack@, provenance, object as nat),
                *env.abi,
                frame,
                base,
                object,
            ),
        }
    } else {
        let below = free_flow(trace, env, s, alias_slots(env, provenance, 0, object), depth, w);
        if !below.running {
            below
        } else {
            let freed = free_flow(below.trace, env, s, stack_slots(env, object, depth), depth, w);
            if freed.running {
                Flow { running: true, trace: top_store(freed.trace, *env.abi, frame, base, object) }
            } else {
                freed
            }
        }
    }
}

fn release_below(
    code: &mut Code,
    env: &OptEnv<'_>,
    borrowed: bool,
    provenance: &Vec<OptProvenance>,
    object: usize,
    depth: usize,
) -> (r: Result<(), CompileFailure>)
    requires
        env.wf(old(code).len()),
        object < depth <= env.stack@.len(),
        depth <= provenance@.len(),
        !env.int32_loop,
    ensures
        kept(*old(code), *final(code)),
        r is Ok && env.typed(*old(code)) ==> steady(*old(code), *final(code)),
        r is Ok <==> borrowed || helper_known(*env, env.abi.helper_free),
        r is Err ==> r == Err::<(), CompileFailure>(CompileFailure::InvalidArtifact),
        final(code).len() >= old(code).len(),
        r is Ok ==> forall|w: World|
            #![trigger final(code).at(w)]
            match old(code).at(w) {
                Status::Run(s) => flows(
                    final(code).at(w),
                    s,
                    old(code).len(),
                    s.vars,
                    released(*env, s, borrowed, provenance@, object as int, depth as int, s.trace, w),
                ),
                st => final(code).at(w) == st,
            },
{
    if borrowed {
        publish_prefix(code, env, provenance, object);
        let ghost c1 = *code;
        opt_set_stack_top(code, env, object);
        proof {
            assert forall|w: World|
                #![trigger code.at(w)]
                match old(code).at(w) {
                    Status::Run(s) => flows(
                        code.at(w),
                        s,
                        old(code).len(),
                        s.vars,
                        released(*env, s, borrowed, provenance@, object as int, depth as int, s.trace, w),
                    ),
                    st => code.at(w) == st,
                } by {
                let a1 = c1.at(w);
            }
        }
        return Ok(());
    }
    if let Err(e) = opt_release_materialized_aliases(code, env, provenance, 0, object, depth) {
        return Err(e);
    }
    let ghost c1 = *code;
    if let Err(e) = opt_release_owned_stack(code, env, object, depth) {
        return Err(e);
    }
    proof {
        assert forall|w: World|
            #![trigger code.at(w)]
            match old(code).at(w) {
                Status::Run(s) => flows(
                    code.at(w),
                    s,
                    old(code).len(),
                    s.vars,
                    released(*env, s, borrowed, provenance@, object as int, depth as int, s.trace, w),
                ),
                st => code.at(w) == st,
            } by {
            let a1 = c1.at(w);
            if let Status::Run(s) = old(code).at(w) {
                if let Status::Run(t) = a1 {
                    same_free(t.trace, *env, s, t, stack_slots(*env, object as int, depth as int), depth as int, w);
                }
            }
        }
    }
    Ok(())
}

/// The receiver's root, where the receiver can be used in place: every live
/// value is borrowed from an argument or local, or a primitive.
pub open spec fn borrowed_root(env: OptEnv<'_>, provenance: Seq<OptProvenance>, object: int, depth: int) -> Option<int> {
    if forall|i: int|
        0 <= i < depth ==> is_borrowed(#[trigger] provenance[i]) || provenance[i] == OptProvenance::ImmediatePrimitive {
        match provenance[object] {
            OptProvenance::Argument(index) => Some(index as int),
            OptProvenance::Local(index) => if env.arguments@.len() + index <= usize::MAX {
                Some(env.arguments@.len() + index)
            } else {
                None
            },
            _ => None,
        }
    } else {
        None
    }
}

fn find_root(env: &OptEnv<'_>, provenance: &Vec<OptProvenance>, object: usize, depth: usize) -> (r: Option<usize>)
    requires
        object < depth <= provenance@.len(),
    ensures
        match r {
            Some(slot) => borrowed_root(*env, provenance@, object as int, depth as int) == Some(slot as int),
            None => borrowed_root(*env, provenance@, object as int, depth as int) is None,
        },
{
    let mut i: usize = 0;
    while i < depth
        invariant
            i <= depth <= provenance@.len(),
            forall|k: int|
                0 <= k < i
                    ==> is_borrowed(#[trigger] provenance@[k]) || provenance@[k] == OptProvenance::ImmediatePrimitive,
        decreases depth - i,
    {
        if !matches!(
            provenance[i],
            OptProvenance::Argument(_) | OptProvenance::Local(_) | OptProvenance::ImmediatePrimitive
        ) {
            assert(!is_borrowed(provenance@[i as int]) && provenance@[i as int] != OptProvenance::ImmediatePrimitive);
            return None;
        }
        i = i + 1;
    }
    match provenance[object] {
        OptProvenance::Argument(index) => Some(index),
        OptProvenance::Local(index) => if index <= usize::MAX - env.arguments.len() {
            Some(env.arguments.len() + index)
        } else {
            None
        },
        _ => None,
    }
}

/// How the search starts: in place, or with the frame published and the
/// runtime's comparison at hand.
pub open spec fn property_start(
    env: OptEnv<'_>,
    s: State,
    borrowed: bool,
    provenance: Seq<OptProvenance>,
    depth: nat,
    pc: u32,
    w: World,
) -> Flow {
    if borrowed {
        Flow { running: true, trace: s.trace }
    } else {
        let ready = published(env, s, provenance, depth, depth, pc, w);
        if ready.running {
            Flow {
                running: true,
                trace: pointer_reads(
                    ready.trace,
                    *env.abi,
                    s.vals[env.frame as int],
                    env.abi.helper_shape_guard as int,
                    w,
                ),
            }
        } else {
            ready
        }
    }
}

pub open spec fn property_post(
    env: OptEnv<'_>,
    st: Status,
    st2: Status,
    n: int,
    store: bool,
    borrowed: bool,
    slot: u32,
    properties: Seq<ShapeObservation>,
    provenance: Seq<OptProvenance>,
    depth: int,
    pc: u32,
    guard: u32,
    w: World,
) -> bool {
    match st {
        Status::Run(s) => {
            let object = depth - if store {
                2int
            } else {
                1int
            };
            let base = s.vals[env.stack_base as int];
            let started = property_start(env, s, borrowed, provenance, depth as nat, pc, w);
            let helper = if borrowed {
                None
            } else {
                Some((wrap(Ty::I64, (w.observe)(started.trace.len() - 1)), slot))
            };
            let input = if store {
                Some(env.stack@[depth - 1])
            } else {
                None
            };
            if !started.running {
                exits_with(st2, started.trace)
            } else {
                match searched(
                    env,
                    State { trace: started.trace, ..s },
                    properties,
                    helper,
                    env.stack@[object],
                    input,
                    properties.len(),
                    w,
                ) {
                    Search::Searching { trace } | Search::Failed { trace } => exits_with(
                        st2,
                        property_deopt(env, s, borrowed, provenance, depth as nat, pc, guard, trace, w),
                    ),
                    Search::Raised { trace } => exits_with(
                        st2,
                        exit_record(trace, *env.abi, s.vals[env.sret as int], env.abi.exit_exception, 0, 0),
                    ),
                    Search::Hit { trace, payload, tag } => {
                        let done = released(env, s, borrowed, provenance, object, depth, trace, w);
                        if !done.running {
                            exits_with(st2, done.trace)
                        } else if store {
                            runs_on(st2, s, n, s.vars, done.trace)
                        } else {
                            runs_on(
                                st2,
                                s,
                                n,
                                vars_after(s.vars, env.stack@[object], payload, tag),
                                top_store(
                                    pair_stores(done.trace, base + object * 16, payload, tag),
                                    *env.abi,
                                    s.vals[env.frame as int],
                                    base,
                                    depth,
                                ),
                            )
                        }
                    },
                }
            }
        },
        st => st2 == st,
    }
}

/// Starts an access; answers the address of the runtime's comparison where it
/// is needed.
fn start_property(
    code: &mut Code,
    env: &OptEnv<'_>,
    borrowed: bool,
    provenance: &Vec<OptProvenance>,
    depth: usize,
    pc: u32,
) -> (r: Result<Option<usize>, CompileFailure>)
    requires
        env.wf(old(code).len()),
        depth <= env.stack@.len(),
    ensures
        kept(*old(code), *final(code)),
        r is Ok && env.typed(*old(code)) ==> steady(*old(code), *final(code)),
        r matches Ok(Some(pointer)) ==> final(code).holds(pointer, Ty::I64),
        r is Ok <==> borrowed || stack_ownable(*env, provenance@, depth as int) && helper_known(*env, env.abi.helper_shape_guard),
        r matches Err(e) ==> e == own_failure(*env, provenance@, depth as int),
        final(code).len() >= old(code).len(),
        r matches Ok(pointer) ==> (pointer is None <==> borrowed) && (pointer matches Some(id) ==> id < final(code).len()),
        r matches Ok(pointer) ==> forall|w: World|
            #![trigger final(code).at(w)]
            match old(code).at(w) {
                Status::Run(s) => {
                    let started = property_start(*env, s, borrowed, provenance@, depth as nat, pc, w);
                    &&& flows(final(code).at(w), s, old(code).len(), s.vars, started)
                    &&& started.running && pointer is Some ==> value(final(code).at(w), pointer->Some_0) == wrap(
                        Ty::I64,
                        (w.observe)(started.trace.len() - 1),
                    )
                },
                st => final(code).at(w) == st,
            },
{
    if borrowed {
        return Ok(None);
    }
    if let Err(e) = publish_frame(code, env, provenance, depth, depth, pc) {
        return Err(e);
    }
    let ghost c1 = *code;
    if env.abi.helper_shape_guard >= env.helper_signatures.len() || env.abi.helper_shape_guard
        >= env.abi.helper_offsets.len() {
        return Err(CompileFailure::InvalidArtifact);
    }
    let pointer = helper_pointer(code, env, env.abi.helper_shape_guard);
    proof {
        assert forall|w: World|
            #![trigger code.at(w)]
            match old(code).at(w) {
                Status::Run(s) => {
                    let started = property_start(*env, s, borrowed, provenance@, depth as nat, pc, w);
                    &&& flows(code.at(w), s, old(code).len(), s.vars, started)
                    &&& started.running ==> value(code.at(w), pointer) == wrap(
                        Ty::I64,
                        (w.observe)(started.trace.len() - 1),
                    )
                },
                st => code.at(w) == st,
            } by {
            let a1 = c1.at(w);
        }
    }
    Ok(Some(pointer))
}

/// Control after the search: failures and exceptions have left, and a hit goes
/// on with the field's value.
spec fn search_closed(
    env: OptEnv<'_>,
    st: Status,
    st2: Status,
    n: int,
    borrowed: bool,
    properties: Seq<ShapeObservation>,
    helper: Option<(usize, u32)>,
    object: OptVars,
    input: Option<OptVars>,
    result: OptPair,
    provenance: Seq<OptProvenance>,
    depth: nat,
    pc: u32,
    guard: u32,
    w: World,
) -> bool {
    match st {
        Status::Run(s) => match searched(env, s, properties, helper_in(s, helper), object, input, properties.len(), w) {
            Search::Searching { trace } | Search::Failed { trace } => exits_with(
                st2,
                property_deopt(env, s, borrowed, provenance, depth, pc, guard, trace, w),
            ),
            Search::Raised { trace } => exits_with(
                st2,
                exit_record(trace, *env.abi, s.vals[env.sret as int], env.abi.exit_exception, 0, 0),
            ),
            Search::Hit { trace, payload, tag } => runs_on(st2, s, n, s.vars, trace) && value(st2, result.payload) == payload
                && value(st2, result.tag) == tag,
        },
        st => st2 == st,
    }
}

proof fn same_property_deopt(
    env: OptEnv<'_>,
    s: State,
    t: State,
    borrowed: bool,
    provenance: Seq<OptProvenance>,
    depth: nat,
    pc: u32,
    guard: u32,
    trace: Seq<Event>,
    w: World,
)
    requires
        t.vals[env.frame as int] == s.vals[env.frame as int],
        t.vals[env.stack_base as int] == s.vals[env.stack_base as int],
        t.vals[env.sret as int] == s.vals[env.sret as int],
        t.vals[env.arg_buf as int] == s.vals[env.arg_buf as int],
        t.vals[env.var_buf as int] == s.vals[env.var_buf as int],
        t.vars == s.vars,
    ensures
        property_deopt(env, s, borrowed, provenance, depth, pc, guard, trace, w) == property_deopt(
            env,
            t,
            borrowed,
            provenance,
            depth,
            pc,
            guard,
            trace,
            w,
        ),
{
    let frame = s.vals[env.frame as int];
    let base = s.vals[env.stack_base as int];
    let spilled = slot_stores(
        slot_stores(trace, s.vals[env.arg_buf as int], s.vars, env.arguments@, env.arguments@.len()),
        s.vals[env.var_buf as int],
        s.vars,
        env.locals@,
        env.locals@.len(),
    );
    let topped = top_store(pc_store(spilled, *env.abi, frame, pc, w), *env.abi, frame, base, 0);
    same_own_flow(slot_stores(topped, base, s.vars, env.stack@, depth), env, s, t, provenance, depth, w);
}

/// Emits the search and the blocks that its outcomes lead to.
#[verifier::rlimit(60)]
fn search_and_close(
    code: &mut Code,
    env: &OptEnv<'_>,
    borrowed: bool,
    properties: &Vec<ShapeObservation>,
    helper: Option<(usize, u32)>,
    object: OptVars,
    input: Option<OptVars>,
    provenance: &Vec<OptProvenance>,
    depth: usize,
    pc: u32,
    guard: u32,
) -> (r: Result<OptPair, CompileFailure>)
    requires
        env.wf(old(code).len()),
        depth <= env.stack@.len(),
        borrowed == (helper is None),
        helper matches Some((pointer, _)) ==> pointer < old(code).len() && helper_known(*env, env.abi.helper_shape_guard),
    ensures
        kept(*old(code), *final(code)),
        r is Ok && env.typed(*old(code)) && slot_named(*old(code), object, Ty::I64)
            && (input matches Some(slot) ==> slot_named(*old(code), slot, Ty::I64))
            && (helper matches Some((pointer, _)) ==> old(code).holds(pointer, Ty::I64))
            ==> steady(*old(code), *final(code)),
        r matches Ok(pair) ==> pair_held(*final(code), pair),
        r is Ok <==> properties_failure(borrowed, properties@, properties@.len()) is None && (!borrowed || stack_ownable(
            *env,
            provenance@,
            depth as int,
        )),
        r matches Err(e) ==> e == (match properties_failure(borrowed, properties@, properties@.len()) {
            Some(failure) => failure,
            None => own_failure(*env, provenance@, depth as int),
        }),
        final(code).len() >= old(code).len(),
        r matches Ok(pair) ==> pair.payload < final(code).len() && pair.tag < final(code).len() && forall|w: World|
            #![trigger final(code).at(w)]
            search_closed(
                *env,
                old(code).at(w),
                final(code).at(w),
                old(code).len(),
                borrowed,
                properties@,
                helper,
                object,
                input,
                pair,
                provenance@,
                depth as nat,
                pc,
                guard,
                w,
            ),
{
    let failed = code.new_block();
    let raised = code.new_block();
    let hit = code.new_block();
    let ghost c0 = *code;
    let blocks = SearchBlocks { hit, failed, raised };
    if let Err(e) = search_shapes(code, env, properties, helper, object, input, blocks) {
        return Err(e);
    }
    let ghost c1 = *code;
    let _ = code.switch_to(raised);
    let ghost c2 = *code;
    emit_opt_exit(code, env, env.abi.exit_exception, None, 0);
    let ghost c3 = *code;
    let _ = code.switch_to(failed);
    let ghost c4 = *code;
    if let Err(e) = emit_property_deopt(code, env, borrowed, provenance, depth, pc, guard) {
        return Err(e);
    }
    let ghost c5 = *code;
    let _ = code.switch_to(hit);
    let payload = code.param(0, Ty::I64);
    let tag = code.param(1, Ty::I64);
    let result = OptPair { payload, tag };
    proof {
        assert forall|w: World|
            #![trigger code.at(w)]
            search_closed(
                *env,
                old(code).at(w),
                code.at(w),
                old(code).len(),
                borrowed,
                properties@,
                helper,
                object,
                input,
                result,
                provenance@,
                depth as nat,
                pc,
                guard,
                w,
            ) by {
            waits_for_known_blocks(old(code).insts@, w);
            let a0 = c0.at(w);
            let a1 = c1.at(w);
            let a2 = c2.at(w);
            let a3 = c3.at(w);
            let a4 = c4.at(w);
            let a5 = c5.at(w);
            if let Status::Run(s) = old(code).at(w) {
                if let Status::Run(t) = a4 {
                    same_property_deopt(
                        *env,
                        s,
                        t,
                        borrowed,
                        provenance@,
                        depth as nat,
                        pc,
                        guard,
                        t.trace,
                        w,
                    );
                }
            }
        }
    }
    Ok(result)
}

/// The stack after an access: the operands of a store are gone, and a load
/// leaves a primitive.
pub open spec fn property_provenance(provenance: Seq<OptProvenance>, store: bool, depth: int) -> Seq<OptProvenance> {
    crate::property_cache::access_provenance(provenance, store, depth)
}

/// The slot by which the runtime finds the receiver.
pub open spec fn receiver_slot(env: OptEnv<'_>, provenance: Seq<OptProvenance>, object: int, depth: int) -> int {
    match borrowed_root(env, provenance, object, depth) {
        Some(slot) => slot,
        None => flat_stack_slot(env, object),
    }
}

pub open spec fn property_ready(
    env: OptEnv<'_>,
    store: bool,
    properties: Seq<ShapeObservation>,
    provenance: Seq<OptProvenance>,
    depth: int,
) -> bool {
    let object = depth - if store {
        2int
    } else {
        1int
    };
    let borrowed = borrowed_root(env, provenance, object, depth) is Some;
    &&& object >= 0
    &&& stack_ownable(env, provenance, depth)
    &&& 0 < properties.len() <= 3
    &&& receiver_slot(env, provenance, object, depth) <= u32::MAX
    &&& properties_failure(borrowed, properties, properties.len()) is None
    &&& borrowed || helper_known(env, env.abi.helper_shape_guard) && helper_known(env, env.abi.helper_free)
}

/// Why a property is not accessed: operands or observations are missing, the
/// receiver has no slot number, the stack cannot be made an owner, or an
/// observation cannot be checked.
pub open spec fn guarded_property_failure(
    env: OptEnv<'_>,
    store: bool,
    properties: Seq<ShapeObservation>,
    provenance: Seq<OptProvenance>,
    depth: int,
) -> CompileFailure {
    let object = depth - if store {
        2int
    } else {
        1int
    };
    let borrowed = borrowed_root(env, provenance, object, depth) is Some;
    if object < 0 || properties.len() == 0 || properties.len() > 3 {
        CompileFailure::InvalidArtifact
    } else if receiver_slot(env, provenance, object, depth) > u32::MAX {
        CompileFailure::ResourceLimit
    } else if !borrowed && !(stack_ownable(env, provenance, depth) && helper_known(env, env.abi.helper_shape_guard)) {
        own_failure(env, provenance, depth)
    } else {
        match properties_failure(borrowed, properties, properties.len()) {
            Some(failure) => failure,
            None => own_failure(env, provenance, depth),
        }
    }
}

/// Reads or writes a property of an object with one of the observed shapes.
/// Everything else deoptimizes, or raises what the runtime raised.
#[verifier::rlimit(60)]
pub fn emit_opt_guarded_property(
    code: &mut Code,
    env: &OptEnv<'_>,
    provenance: &mut Vec<OptProvenance>,
    depth: usize,
    store: bool,
    properties: &Vec<ShapeObservation>,
    pc: u32,
    guard: u32,
) -> (r: Result<usize, CompileFailure>)
    requires
        env.wf(old(code).len()),
        !env.int32_loop,
        depth <= env.stack@.len(),
        depth <= old(provenance)@.len(),
    ensures
        kept(*old(code), *final(code)),
        r is Ok && env.typed(*old(code)) ==> steady(*old(code), *final(code)),
        r is Ok <==> property_ready(*env, store, properties@, old(provenance)@, depth as int),
        r matches Err(e) ==> e == guarded_property_failure(*env, store, properties@, old(provenance)@, depth as int),
        final(code).len() >= old(code).len(),
        r matches Ok(d) ==> d == (if store {
            depth - 2
        } else {
            depth as int
        }) && final(provenance)@ == property_provenance(old(provenance)@, store, depth as int),
        r is Ok ==> forall|w: World|
            #![trigger final(code).at(w)]
            ({
                let object = depth - if store {
                    2int
                } else {
                    1int
                };
                property_post(
                    *env,
                    old(code).at(w),
                    final(code).at(w),
                    old(code).len(),
                    store,
                    borrowed_root(*env, old(provenance)@, object, depth as int) is Some,
                    receiver_slot(*env, old(provenance)@, object, depth as int) as u32,
                    properties@,
                    old(provenance)@,
                    depth as int,
                    pc,
                    guard,
                    w,
                )
            }),
{
    let operands: usize = if store {
        2
    } else {
        1
    };
    if depth < operands {
        return Err(CompileFailure::InvalidArtifact);
    }
    let object_index: usize = depth - operands;
    let root = find_root(env, provenance, object_index, depth);
    let borrowed = root.is_some();
    if properties.len() == 0 || properties.len() > 3 {
        return Err(CompileFailure::InvalidArtifact);
    }
    let flat: usize = match root {
        Some(slot) => slot,
        None => env.arguments.len() + env.locals.len() + object_index,
    };
    if flat > 0xffff_ffff {
        return Err(CompileFailure::ResourceLimit);
    }
    let slot: u32 = flat as u32;
    let pointer = match start_property(code, env, borrowed, provenance, depth, pc) {
        Ok(pointer) => pointer,
        Err(e) => return Err(e),
    };
    let ghost c1 = *code;
    let helper: Option<(usize, u32)> = match pointer {
        Some(pointer) => Some((pointer, slot)),
        None => None,
    };
    let input: Option<OptVars> = if store {
        Some(env.stack[depth - 1])
    } else {
        None
    };
    let pair = match search_and_close(
        code,
        env,
        borrowed,
        properties,
        helper,
        env.stack[object_index],
        input,
        provenance,
        depth,
        pc,
        guard,
    ) {
        Ok(pair) => pair,
        Err(e) => return Err(e),
    };
    let ghost c2 = *code;
    if let Err(e) = release_below(code, env, borrowed, provenance, object_index, depth) {
        return Err(e);
    }
    let ghost c3 = *code;
    let result: usize = if store {
        provenance.set(object_index, OptProvenance::Unknown);
        provenance.set(depth - 1, OptProvenance::Unknown);
        object_index
    } else {
        opt_define(code, env.stack[object_index], pair);
        provenance.set(object_index, OptProvenance::ImmediatePrimitive);
        let ghost c4 = *code;
        opt_store(code, env.stack_base, object_index, pair, Ty::I64);
        let ghost c5 = *code;
        opt_set_stack_top(code, env, depth);
        proof {
            assert forall|w: World|
                #![trigger code.at(w)]
                match c3.at(w) {
                    Status::Run(s) => {
                        let base = s.vals[env.stack_base as int];
                        runs_on(
                            code.at(w),
                            s,
                            c3.len(),
                            vars_after(
                                s.vars,
                                env.stack@[object_index as int],
                                s.vals[pair.payload as int],
                                s.vals[pair.tag as int],
                            ),
                            top_store(
                                pair_stores(
                                    s.trace,
                                    base + object_index * 16,
                                    s.vals[pair.payload as int],
                                    s.vals[pair.tag as int],
                                ),
                                *env.abi,
                                s.vals[env.frame as int],
                                base,
                                depth as int,
                            ),
                        )
                    },
                    st => code.at(w) == st,
                } by {
                let a4 = c4.at(w);
                let a5 = c5.at(w);
            }
        }
        depth
    };
    proof {
        assert forall|w: World|
            #![trigger code.at(w)]
            property_post(
                *env,
                old(code).at(w),
                code.at(w),
                old(code).len(),
                store,
                borrowed,
                slot,
                properties@,
                old(provenance)@,
                depth as int,
                pc,
                guard,
                w,
            ) by {
            let a1 = c1.at(w);
            let a2 = c2.at(w);
            let a3 = c3.at(w);
            if let Status::Run(s) = old(code).at(w) {
                let started = property_start(*env, s, borrowed, old(provenance)@, depth as nat, pc, w);
                if started.running {
                    let t = a1->Run_0;
                    same_search(
                        *env,
                        State { trace: started.trace, ..s },
                        t,
                        properties@,
                        helper_in(t, helper),
                        env.stack@[object_index as int],
                        input,
                        properties@.len(),
                        w,
                    );
                    match searched(
                        *env,
                        t,
                        properties@,
                        helper_in(t, helper),
                        env.stack@[object_index as int],
                        input,
                        properties@.len(),
                        w,
                    ) {
                        Search::Searching { trace } | Search::Failed { trace } => {
                            same_property_deopt(
                                *env,
                                s,
                                t,
                                borrowed,
                                old(provenance)@,
                                depth as nat,
                                pc,
                                guard,
                                trace,
                                w,
                            );
                        },
                        Search::Hit { trace, .. } => {
                            same_released(
                                *env,
                                s,
                                a2->Run_0,
                                borrowed,
                                old(provenance)@,
                                object_index as int,
                                depth as int,
                                trace,
                                w,
                            );
                        },
                        Search::Raised { .. } => {},
                    }
                }
            }
        }
    }
    Ok(result)
}

proof fn same_search(
    env: OptEnv<'_>,
    s: State,
    t: State,
    properties: Seq<ShapeObservation>,
    helper: Option<(int, u32)>,
    object: OptVars,
    input: Option<OptVars>,
    k: nat,
    w: World,
)
    requires
        t.vals[env.frame as int] == s.vals[env.frame as int],
        t.vars == s.vars,
        t.trace == s.trace,
    ensures
        searched(env, s, properties, helper, object, input, k, w) == searched(env, t, properties, helper, object, input, k, w),
    decreases k,
{
    if k > 0 {
        same_search(env, s, t, properties, helper, object, input, (k - 1) as nat, w);
    }
}

proof fn same_released(
    env: OptEnv<'_>,
    s: State,
    t: State,
    borrowed: bool,
    provenance: Seq<OptProvenance>,
    object: int,
    depth: int,
    trace: Seq<Event>,
    w: World,
)
    requires
        t.vals[env.frame as int] == s.vals[env.frame as int],
        t.vals[env.stack_base as int] == s.vals[env.stack_base as int],
        t.vals[env.sret as int] == s.vals[env.sret as int],
        t.vars == s.vars,
    ensures
        released(env, s, borrowed, provenance, object, depth, trace, w) == released(
            env,
            t,
            borrowed,
            provenance,
            object,
            depth,
            trace,
            w,
        ),
{
    same_free(trace, env, s, t, alias_slots(env, provenance, 0, object), depth, w);
    let below = free_flow(trace, env, s, alias_slots(env, provenance, 0, object), depth, w);
    same_free(below.trace, env, s, t, stack_slots(env, object, depth), depth, w);
}

} // verus!
