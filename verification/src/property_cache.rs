//! Guarded fields that are promoted into variables.
use crate::checks::read;
use crate::checks::rejoin;
use crate::checks::require;
use crate::checks::seen;
use crate::checks::steers;
use crate::code::agree;
use crate::code::truth;
use crate::code::value;
use crate::code::waits_for_known_blocks;
use crate::code::wrap;
use crate::code::BinaryOp;
use crate::code::kept;
use crate::code::kept_instructions;
use crate::code::Code;
use crate::code::Event;
use crate::code::IntCc;
use crate::code::State;
use crate::code::Inst;
use crate::code::Status;
use crate::code::Ty;
use crate::code::World;
use crate::control::CompileFailure;
use crate::exits::deopt_depends_on_frame;
use crate::exits::deopt_trace;
use crate::exits::flush_entry;
use crate::exits::flushed_trace;
use crate::exits::flushed_vars;
use crate::exits::own_failure;
use crate::exits::stack_ownable;
use crate::frame::exits_with;
use crate::frame::opt_set_stack_top;
use crate::frame::runs_on;
use crate::frame::top_store;
use crate::frame::CachedVars;
use crate::frame::OptEnv;
use crate::frame::RuntimeAbi;
use crate::frame::MAX_SLOTS;
use crate::helpers::is_borrowed;
use crate::ir::OptimizedNode;
use crate::lower_values::group_truths;
use crate::lower_values::opt_define;
use crate::lower_values::opt_load;
use crate::lower_values::opt_store;
use crate::lower_values::opt_tag_is;
use crate::lower_values::opt_use;
use crate::lower_values::pair_stores;
use crate::lower_values::undefined;
use crate::lower_values::vars_after;
use crate::lower_values::OptPair;
use crate::lower_values::OptVars;
use crate::names::name_is;
use crate::provenance::OptProvenance;
use crate::qjs::JS_TAG_BOOL;
use crate::qjs::JS_TAG_FLOAT64;
use crate::qjs::JS_TAG_INT;
use crate::qjs::JS_TAG_NULL;
use crate::qjs::JS_TAG_OBJECT;
use crate::qjs::JS_TAG_UNDEFINED;
use crate::runtime::ObservedType;
use crate::runtime::ShapeObservation;
use crate::typing::steady;
use crate::typing::closing;
use crate::typing::calm;
use crate::assemble::Known;
use crate::frame_typing::pair_held;
use crate::frame_typing::slot_named;
use crate::frame_typing::slots_named;
use crate::frame_typing::cached_named;
use crate::frame_typing::cache_named;
use vstd::prelude::*;

verus! {

broadcast use {crate::typing::group_typing, crate::frame_typing::group_frame, crate::exits::own_failures};

/// A field of an argument that may be promoted.
#[derive(Clone, Copy, Debug, PartialEq, Eq, Structural)]
pub struct PropertyCandidate {
    pub argument: u16,
    pub atom: u32,
    pub observation: ShapeObservation,
}

/// An access of a promoted field; distinct candidates may be the same field.
#[derive(Debug)]
pub struct PropertyAccessPlan {
    pub candidate: usize,
    pub store: bool,
    pub aliases: Vec<usize>,
}

/// What the code knows of the promoted fields before an instruction.
#[derive(Clone, Copy, Debug, PartialEq, Eq, Structural)]
pub enum PropertyBoundary {
    Keep,
    Flush,
    FlushInvalidate,
}

/// The promoted fields and the variables that hold them.
#[derive(Debug)]
pub struct PropertyCache {
    pub candidates: Vec<PropertyCandidate>,
    pub entries: Vec<CachedVars>,
}

pub open spec fn blank_entry(vars: Map<int, int>, e: CachedVars) -> Map<int, int> {
    vars_after(vars, e.value, 0, JS_TAG_UNDEFINED as int).insert(e.data as int, 0).insert(e.valid as int, 0).insert(
        e.dirty as int,
        0,
    )
}

pub open spec fn blank_entries(vars: Map<int, int>, entries: Seq<CachedVars>, k: nat) -> Map<int, int>
    decreases k,
{
    if k == 0 {
        vars
    } else {
        blank_entry(blank_entries(vars, entries, (k - 1) as nat), entries[k - 1])
    }
}

proof fn blank_entries_prefix(vars: Map<int, int>, a: Seq<CachedVars>, b: Seq<CachedVars>, k: nat)
    requires
        k <= a.len(),
        k <= b.len(),
        forall|i: int| 0 <= i < k ==> a[i] == b[i],
    ensures
        blank_entries(vars, a, k) == blank_entries(vars, b, k),
    decreases k,
{
    if k > 0 {
        blank_entries_prefix(vars, a, b, (k - 1) as nat);
    }
}

/// The field is neither valid nor pending, and its address is forgotten.
pub open spec fn invalid_entry(vars: Map<int, int>, e: CachedVars) -> Map<int, int> {
    vars.insert(e.valid as int, 0).insert(e.dirty as int, 0).insert(e.data as int, 0)
}

pub open spec fn invalid_entries(vars: Map<int, int>, entries: Seq<CachedVars>, k: nat) -> Map<int, int>
    decreases k,
{
    if k == 0 {
        vars
    } else {
        invalid_entry(invalid_entries(vars, entries, (k - 1) as nat), entries[k - 1])
    }
}

fn invalidate_entry(code: &mut Code, entry: CachedVars)
    ensures
        kept(*old(code), *final(code)),
        cached_named(*old(code), entry) ==> steady(*old(code), *final(code)),
        final(code).len() > old(code).len(),
        forall|w: World|
            #![trigger final(code).at(w)]
            match old(code).at(w) {
                Status::Run(s) => runs_on(final(code).at(w), s, old(code).len(), invalid_entry(s.vars, entry), s.trace),
                st => final(code).at(w) == st,
            },
{
    let no = code.iconst(Ty::I8, 0);
    code.def_var(entry.valid, no);
    code.def_var(entry.dirty, no);
    let null = code.iconst(Ty::I64, 0);
    code.def_var(entry.data, null);
}

/// Forgets every promoted field. Pending writes were published before; no
/// remembered address is used by this.
pub fn invalidate(code: &mut Code, entries: &Vec<CachedVars>)
    ensures
        kept(*old(code), *final(code)),
        cache_named(*old(code), entries@) ==> steady(*old(code), *final(code)),
        final(code).len() >= old(code).len(),
        forall|w: World|
            #![trigger final(code).at(w)]
            match old(code).at(w) {
                Status::Run(s) => runs_on(
                    final(code).at(w),
                    s,
                    old(code).len(),
                    invalid_entries(s.vars, entries@, entries@.len()),
                    s.trace,
                ),
                st => final(code).at(w) == st,
            },
{
    let mut i: usize = 0;
    while i < entries.len()
        invariant
            kept(*old(code), *code),
            cache_named(*old(code), entries@) ==> steady(*old(code), *code),
            cache_named(*old(code), entries@) ==> cache_named(*code, entries@),
            i <= entries@.len(),
            old(code).len() <= code.len(),
            forall|w: World|
                #![trigger code.at(w)]
                match old(code).at(w) {
                    Status::Run(s) => runs_on(
                        code.at(w),
                        s,
                        old(code).len(),
                        invalid_entries(s.vars, entries@, i as nat),
                        s.trace,
                    ),
                    st => code.at(w) == st,
                },
        decreases entries@.len() - i,
    {
        let ghost before = *code;
        invalidate_entry(code, entries[i]);
        proof {
            assert forall|w: World|
                #![trigger code.at(w)]
                match old(code).at(w) {
                    Status::Run(s) => runs_on(
                        code.at(w),
                        s,
                        old(code).len(),
                        invalid_entries(s.vars, entries@, (i + 1) as nat),
                        s.trace,
                    ),
                    st => code.at(w) == st,
                } by {
                let b = before.at(w);
            }
        }
        i = i + 1;
    }
}

/// A field that has been forgotten has nothing to publish.
pub proof fn invalidation_leaves_nothing_pending(vars: Map<int, int>, entries: Seq<CachedVars>, k: nat, i: int)
    requires
        0 <= i < k <= entries.len(),
        forall|a: int, b: int|
            0 <= a < entries.len() && 0 <= b < entries.len() ==> (#[trigger] entries[a]).dirty != (#[trigger] entries[b]).valid
                && entries[a].dirty != entries[b].data,
    ensures
        invalid_entries(vars, entries, k)[entries[i].dirty as int] == 0,
    decreases k,
{
    if i < k - 1 {
        invalidation_leaves_nothing_pending(vars, entries, (k - 1) as nat, i);
        assert(entries[i].dirty != entries[k - 1].valid);
    } else {
        assert(entries[i].dirty != entries[i].data);
    }
}

/// The tag of a primitive value of the observed type.
pub open spec fn tag_of(observed: ObservedType) -> Option<int> {
    match observed {
        ObservedType::Int32 => Some(JS_TAG_INT as int),
        ObservedType::Float64 => Some(JS_TAG_FLOAT64 as int),
        ObservedType::Bool => Some(JS_TAG_BOOL as int),
        ObservedType::Null => Some(JS_TAG_NULL as int),
        ObservedType::Undefined => Some(JS_TAG_UNDEFINED as int),
        _ => None,
    }
}

pub fn primitive_tag(observed: ObservedType) -> (r: Result<i32, CompileFailure>)
    ensures
        r matches Ok(tag) ==> tag_of(observed) == Some(tag as int),
        r is Err ==> tag_of(observed) is None && r == Err::<i32, CompileFailure>(CompileFailure::InvalidArtifact),
{
    match observed {
        ObservedType::Int32 => Ok(JS_TAG_INT),
        ObservedType::Float64 => Ok(JS_TAG_FLOAT64),
        ObservedType::Bool => Ok(JS_TAG_BOOL),
        ObservedType::Null => Ok(JS_TAG_NULL),
        ObservedType::Undefined => Ok(JS_TAG_UNDEFINED),
        _ => Err(CompileFailure::InvalidArtifact),
    }
}

/// Both words of the field can be addressed.
pub open spec fn addressable(offset: u32) -> bool {
    offset * 16 + 8 <= i32::MAX
}

pub fn field_offset(offset: u32) -> (r: Result<i32, CompileFailure>)
    ensures
        r matches Ok(bytes) ==> addressable(offset) && bytes == offset * 16,
        r is Err ==> !addressable(offset) && r == Err::<i32, CompileFailure>(CompileFailure::ResourceLimit),
{
    if offset as u64 * 16 + 8 <= 0x7fff_ffff {
        Ok((offset * 16) as i32)
    } else {
        Err(CompileFailure::ResourceLimit)
    }
}

/// What a look at a field found.
pub struct Field {
    pub ok: bool,
    pub trace: Seq<Event>,
    pub data: int,
    pub payload: int,
    pub tag: int,
}

/// The object has the observed shape, in its observed generation.
pub open spec fn shape_fits(abi: RuntimeAbi, property: ShapeObservation, payload: int, trace: Seq<Event>, w: World) -> bool {
    let shape = seen(trace, Ty::I64, w);
    let after = read(trace, Ty::I64, payload + abi.property.object_shape, w);
    shape == property.shape_identity as i64 && seen(after, Ty::I64, w) == property.shape_generation as i64
}

pub open spec fn shape_reads(abi: RuntimeAbi, payload: int, trace: Seq<Event>, w: World) -> Seq<Event> {
    let shape = seen(trace, Ty::I64, w);
    read(read(trace, Ty::I64, payload + abi.property.object_shape, w), Ty::I64, shape + abi.property.shape_generation, w)
}

/// Looks at a field of a value: the value must be an object of the observed
/// shape, and the field must hold a value with the observed tag.
pub open spec fn field_of(
    abi: RuntimeAbi,
    property: ShapeObservation,
    expected: int,
    payload: int,
    tag: int,
    trace: Seq<Event>,
    w: World,
) -> Field {
    if tag != JS_TAG_OBJECT {
        Field { ok: false, trace, data: 0, payload: 0, tag: 0 }
    } else {
        let t2 = shape_reads(abi, payload, trace, w);
        if !shape_fits(abi, property, payload, trace, w) {
            Field { ok: false, trace: t2, data: 0, payload: 0, tag: 0 }
        } else {
            let t3 = read(t2, Ty::I64, payload + abi.property.object_properties, w);
            let data = wrap(Ty::I64, seen(t2, Ty::I64, w) + property.property_offset * 16);
            let p = seen(t3, Ty::I64, w);
            let t4 = read(t3, Ty::I64, data, w);
            let t = seen(t4, Ty::I64, w);
            Field { ok: t == expected, trace: read(t4, Ty::I64, data + 8, w), data, payload: p, tag: t }
        }
    }
}

/// Compares an object's shape with the observed one; answers whether they agree.
pub fn shape_flag(code: &mut Code, abi: &RuntimeAbi, property: ShapeObservation, payload: usize) -> (r: usize)
    requires
        payload < old(code).len(),
    ensures
        kept(*old(code), *final(code)),
        old(code).holds(payload, Ty::I64) ==> steady(*old(code), *final(code)),
        final(code).kind(r as int) == Known::Value(Ty::I8),
        r < final(code).len(),
        old(code).len() < final(code).len(),
        forall|w: World|
            #![trigger final(code).at(w)]
            match old(code).at(w) {
                Status::Run(s) => runs_on(
                    final(code).at(w),
                    s,
                    old(code).len(),
                    s.vars,
                    shape_reads(*abi, s.vals[payload as int], s.trace, w),
                ) && value(final(code).at(w), r) == truth(shape_fits(*abi, property, s.vals[payload as int], s.trace, w)),
                st => final(code).at(w) == st,
            },
{
    broadcast use group_truths;

    let shape = code.load(Ty::I64, payload, abi.property.object_shape);
    let same_shape = code.compare_imm(IntCc::Equal, Ty::I64, shape, property.shape_identity as i64);
    let generation = code.load(Ty::I64, shape, abi.property.shape_generation);
    let same_generation = code.compare_imm(IntCc::Equal, Ty::I64, generation, property.shape_generation as i64);
    code.binary(BinaryOp::And, Ty::I8, same_shape, same_generation)
}

/// Looks at a field; control leaves for `failed` where it is not as observed.
fn probe_field(
    code: &mut Code,
    abi: &RuntimeAbi,
    object: OptPair,
    property: ShapeObservation,
    offset: i32,
    expected: i32,
    failed: usize,
) -> (r: (usize, OptPair))
    requires
        object.payload < old(code).len(),
        object.tag < old(code).len(),
        failed < old(code).len(),
        offset == property.property_offset * 16,
    ensures
        kept(*old(code), *final(code)),
        pair_held(*old(code), object) && old(code).blocked(failed) ==> steady(*old(code), *final(code)),
        final(code).kind(r.0 as int) == Known::Value(Ty::I64),
        pair_held(*final(code), r.1),
        r.0 < final(code).len(),
        r.1.payload < final(code).len(),
        r.1.tag < final(code).len(),
        old(code).len() < final(code).len(),
        forall|w: World|
            #![trigger final(code).at(w)]
            match old(code).at(w) {
                Status::Run(s) => {
                    let f = field_of(
                        *abi,
                        property,
                        expected as int,
                        s.vals[object.payload as int],
                        s.vals[object.tag as int],
                        s.trace,
                        w,
                    );
                    &&& steers(final(code).at(w), s, old(code).len(), failed, f.ok, s.vars, f.trace)
                    &&& f.ok ==> value(final(code).at(w), r.0) == f.data && value(final(code).at(w), r.1.payload) == f.payload
                        && value(final(code).at(w), r.1.tag) == f.tag
                },
                st => final(code).at(w) == st,
            },
{
    let object_ok = opt_tag_is(code, object.tag, JS_TAG_OBJECT);
    require(code, object_ok, failed);
    let ghost c1 = *code;
    let shape_ok = shape_flag(code, abi, property, object.payload);
    let ghost c2 = *code;
    require(code, shape_ok, failed);
    let props = code.load(Ty::I64, object.payload, abi.property.object_properties);
    let data = code.binary_imm(BinaryOp::Add, Ty::I64, props, offset as i64);
    let ghost c3 = *code;
    let current = opt_load(code, data, 0);
    let tag_ok = opt_tag_is(code, current.tag, expected);
    require(code, tag_ok, failed);
    proof {
        assert forall|w: World|
            #![trigger code.at(w)]
            match old(code).at(w) {
                Status::Run(s) => {
                    let f = field_of(
                        *abi,
                        property,
                        expected as int,
                        s.vals[object.payload as int],
                        s.vals[object.tag as int],
                        s.trace,
                        w,
                    );
                    &&& steers(code.at(w), s, old(code).len(), failed, f.ok, s.vars, f.trace)
                    &&& f.ok ==> value(code.at(w), data) == f.data && value(code.at(w), current.payload) == f.payload && value(
                        code.at(w),
                        current.tag,
                    ) == f.tag
                },
                st => code.at(w) == st,
            } by {
            let a1 = c1.at(w);
            let a2 = c2.at(w);
            let a3 = c3.at(w);
        }
    }
    (data, current)
}

/// A promoted field holds what a look at it found.
pub open spec fn entry_loaded(vars: Map<int, int>, e: CachedVars, f: Field) -> Map<int, int> {
    vars_after(vars, e.value, f.payload, f.tag).insert(e.data as int, f.data).insert(e.valid as int, 1)
}

/// Whether control goes on, the variables, and what was observed.
pub struct Steer {
    pub ok: bool,
    pub vars: Map<int, int>,
    pub trace: Seq<Event>,
}

pub open spec fn candidate_failure(env: OptEnv<'_>, candidate: PropertyCandidate) -> Option<CompileFailure> {
    if candidate.argument >= env.arguments@.len() {
        Some(CompileFailure::InvalidArtifact)
    } else if !addressable(candidate.observation.property_offset) {
        Some(CompileFailure::ResourceLimit)
    } else if tag_of(candidate.observation.value) is None {
        Some(CompileFailure::InvalidArtifact)
    } else {
        None
    }
}

/// The first candidate below `k` that cannot be looked at decides.
pub open spec fn candidates_failure(env: OptEnv<'_>, candidates: Seq<PropertyCandidate>, k: nat) -> Option<CompileFailure>
    decreases k,
{
    if k == 0 {
        None
    } else {
        match candidates_failure(env, candidates, (k - 1) as nat) {
            Some(e) => Some(e),
            None => candidate_failure(env, candidates[k - 1]),
        }
    }
}

/// Looks at the first `k` promoted fields again.
pub open spec fn revalidated(
    env: OptEnv<'_>,
    candidates: Seq<PropertyCandidate>,
    entries: Seq<CachedVars>,
    vars: Map<int, int>,
    trace: Seq<Event>,
    k: nat,
    w: World,
) -> Steer
    decreases k,
{
    if k == 0 {
        Steer { ok: true, vars, trace }
    } else {
        let before = revalidated(env, candidates, entries, vars, trace, (k - 1) as nat, w);
        if !before.ok {
            before
        } else {
            let candidate = candidates[k - 1];
            let slot = env.arguments@[candidate.argument as int];
            let f = field_of(
                *env.abi,
                candidate.observation,
                tag_of(candidate.observation.value)->Some_0,
                before.vars[slot.payload as int],
                before.vars[slot.tag as int],
                before.trace,
                w,
            );
            if f.ok {
                Steer {
                    ok: true,
                    vars: entry_loaded(before.vars, entries[k - 1], f).insert(entries[k - 1].dirty as int, 0),
                    trace: f.trace,
                }
            } else {
                Steer { ok: false, vars: before.vars, trace: f.trace }
            }
        }
    }
}

pub open spec fn revalidate_post(
    env: OptEnv<'_>,
    cache: PropertyCache,
    st: Status,
    st2: Status,
    n: int,
    provenance: Seq<OptProvenance>,
    depth: int,
    pc: u32,
    guard: u32,
    w: World,
) -> bool {
    match st {
        Status::Run(s) => {
            let v = revalidated(env, cache.candidates@, cache.entries@, s.vars, s.trace, cache.entries@.len(), w);
            if v.ok {
                runs_on(st2, s, n, v.vars, v.trace)
            } else {
                exits_with(st2, deopt_trace(env, s, v.vars, v.trace, provenance, depth as nat, pc, guard, w))
            }
        },
        st => st2 == st,
    }
}

/// Whether the access can use the promoted field: the receiver and everything
/// below it is borrowed from an argument or local, or a primitive.
pub open spec fn access_allowed(cache: PropertyCache, access: PropertyAccessPlan, depth: int, provenance: Seq<OptProvenance>) -> bool {
    let operands = if access.store {
        2int
    } else {
        1int
    };
    &&& depth >= operands
    &&& depth <= provenance.len()
    &&& access.candidate < cache.entries@.len()
    &&& is_borrowed(provenance[depth - operands])
    &&& forall|i: int|
        0 <= i < depth ==> is_borrowed(#[trigger] provenance[i]) || provenance[i] == OptProvenance::ImmediatePrimitive
}

/// The first `k` aliases are published and forgotten.
pub open spec fn aliased(entries: Seq<CachedVars>, aliases: Seq<usize>, vars: Map<int, int>, trace: Seq<Event>, k: nat) -> Steer
    decreases k,
{
    if k == 0 {
        Steer { ok: true, vars, trace }
    } else {
        let before = aliased(entries, aliases, vars, trace, (k - 1) as nat);
        let e = entries[aliases[k - 1] as int];
        Steer {
            ok: true,
            vars: invalid_entry(flushed_vars(before.vars, e), e),
            trace: flushed_trace(before.vars, before.trace, e),
        }
    }
}

/// The field is looked at unless it is known to be valid.
pub open spec fn consulted(
    env: OptEnv<'_>,
    candidate: PropertyCandidate,
    e: CachedVars,
    forwarded: bool,
    receiver: OptVars,
    vars: Map<int, int>,
    trace: Seq<Event>,
    w: World,
) -> Steer {
    if forwarded || vars[e.valid as int] != 0 {
        Steer { ok: true, vars, trace }
    } else {
        let f = field_of(
            *env.abi,
            candidate.observation,
            tag_of(candidate.observation.value)->Some_0,
            vars[receiver.payload as int],
            vars[receiver.tag as int],
            trace,
            w,
        );
        if f.ok {
            Steer { ok: true, vars: entry_loaded(vars, e, f), trace: f.trace }
        } else {
            Steer { ok: false, vars, trace: f.trace }
        }
    }
}

/// A store of a value with the observed tag becomes pending; any other value
/// fails before anything is written.
pub open spec fn stored(candidate: PropertyCandidate, e: CachedVars, input: OptVars, before: Steer) -> Steer {
    if before.ok && before.vars[input.tag as int] == tag_of(candidate.observation.value)->Some_0 {
        Steer {
            ok: true,
            vars: vars_after(
                before.vars,
                e.value,
                before.vars[input.payload as int],
                before.vars[input.tag as int],
            ).insert(e.dirty as int, 1),
            trace: before.trace,
        }
    } else {
        Steer { ok: false, ..before }
    }
}

/// The surviving stack prefix, published: primitives with their values, and
/// borrowed aliases as placeholders that own nothing.
pub open spec fn prefix_stores(
    trace: Seq<Event>,
    base: int,
    vars: Map<int, int>,
    slots: Seq<OptVars>,
    provenance: Seq<OptProvenance>,
    k: nat,
) -> Seq<Event>
    decreases k,
{
    if k == 0 {
        trace
    } else {
        let before = prefix_stores(trace, base, vars, slots, provenance, (k - 1) as nat);
        if provenance[k - 1] == OptProvenance::ImmediatePrimitive {
            pair_stores(
                before,
                base + (k - 1) * 16,
                vars[slots[k - 1].payload as int],
                vars[slots[k - 1].tag as int],
            )
        } else {
            pair_stores(before, base + (k - 1) * 16, 0, JS_TAG_UNDEFINED as int)
        }
    }
}

/// Publishes the first `count` stack slots.
pub fn publish_prefix(code: &mut Code, env: &OptEnv<'_>, provenance: &Vec<OptProvenance>, count: usize)
    requires
        env.wf(old(code).len()),
        count <= env.stack@.len(),
        count <= provenance@.len(),
        !env.int32_loop,
    ensures
        kept(*old(code), *final(code)),
        env.typed(*old(code)) ==> steady(*old(code), *final(code)),
        final(code).len() >= old(code).len(),
        forall|w: World|
            #![trigger final(code).at(w)]
            match old(code).at(w) {
                Status::Run(s) => runs_on(
                    final(code).at(w),
                    s,
                    old(code).len(),
                    s.vars,
                    prefix_stores(
                        s.trace,
                        s.vals[env.stack_base as int],
                        s.vars,
                        env.stack@,
                        provenance@,
                        count as nat,
                    ),
                ),
                st => final(code).at(w) == st,
            },
{
    let blank = undefined(code);
    let ghost start = *code;
    let mut i: usize = 0;
    while i < count
        invariant
            kept(*old(code), *code),
            env.typed(*old(code)) ==> steady(*old(code), *code),
            env.typed(*old(code)) ==> env.typed(*code),
            pair_held(*code, blank),
            i <= count,
            count <= env.stack@.len() <= MAX_SLOTS,
            count <= provenance@.len(),
            env.stack_base < old(code).len() <= start.len() <= code.len(),
            blank.payload < start.len(),
            blank.tag < start.len(),
            forall|w: World|
                #![trigger code.at(w)]
                match start.at(w) {
                    Status::Run(s) => s.vals[blank.payload as int] == 0 && s.vals[blank.tag as int] == JS_TAG_UNDEFINED ==> runs_on(
                        code.at(w),
                        s,
                        start.len(),
                        s.vars,
                        prefix_stores(
                            s.trace,
                            s.vals[env.stack_base as int],
                            s.vars,
                            env.stack@,
                            provenance@,
                            i as nat,
                        ),
                    ),
                    st => code.at(w) == st,
                },
        decreases count - i,
    {
        let ghost before = *code;
        let pair = if matches!(provenance[i], OptProvenance::ImmediatePrimitive) {
            opt_use(code, env.stack[i], Ty::I64)
        } else {
            blank
        };
        let ghost used = *code;
        opt_store(code, env.stack_base, i, pair, Ty::I64);
        proof {
            assert forall|w: World|
                #![trigger code.at(w)]
                match start.at(w) {
                    Status::Run(s) => s.vals[blank.payload as int] == 0 && s.vals[blank.tag as int] == JS_TAG_UNDEFINED ==> runs_on(
                        code.at(w),
                        s,
                        start.len(),
                        s.vars,
                        prefix_stores(
                            s.trace,
                            s.vals[env.stack_base as int],
                            s.vars,
                            env.stack@,
                            provenance@,
                            (i + 1) as nat,
                        ),
                    ),
                    st => code.at(w) == st,
                } by {
                let b = before.at(w);
                let u = used.at(w);
            }
        }
        i = i + 1;
    }
    proof {
        assert forall|w: World|
            #![trigger code.at(w)]
            match old(code).at(w) {
                Status::Run(s) => runs_on(
                    code.at(w),
                    s,
                    old(code).len(),
                    s.vars,
                    prefix_stores(
                        s.trace,
                        s.vals[env.stack_base as int],
                        s.vars,
                        env.stack@,
                        provenance@,
                        count as nat,
                    ),
                ),
                st => code.at(w) == st,
            } by {
            let a = start.at(w);
        }
    }
}

/// Why an access cannot be emitted, in the order of the checks.
pub open spec fn access_failure(
    env: OptEnv<'_>,
    cache: PropertyCache,
    access: PropertyAccessPlan,
    node: OptimizedNode,
    depth: int,
    provenance: Seq<OptProvenance>,
) -> Option<CompileFailure> {
    let candidate = cache.candidates@[access.candidate as int];
    let property = candidate.observation;
    if !access_allowed(cache, access, depth, provenance) || env.int32_loop || node.name() != (if access.store {
        "put_field"@
    } else {
        "get_field"@
    }) || candidate.argument >= env.arguments@.len() || env.stack@.len() < depth || node.deopt_guard is None || tag_of(
        property.value,
    ) is None {
        Some(CompileFailure::InvalidArtifact)
    } else if !addressable(property.property_offset) {
        Some(CompileFailure::ResourceLimit)
    } else if property.shape_identity == 0 || property.shape_generation == 0 || property.prototype_identity != 0
        || property.prototype_generation != 0 || property.accessor || !property.writable || exists|k: int|
        0 <= k < access.aliases@.len() && ((#[trigger] access.aliases@[k]) == access.candidate || access.aliases@[k]
            >= cache.entries@.len()) {
        Some(CompileFailure::InvalidArtifact)
    } else {
        None
    }
}

/// The whole access, up to where control goes on or fails.
pub open spec fn accessed(
    env: OptEnv<'_>,
    cache: PropertyCache,
    access: PropertyAccessPlan,
    forwarded: bool,
    depth: int,
    s: State,
    w: World,
) -> Steer {
    let candidate = cache.candidates@[access.candidate as int];
    let e = cache.entries@[access.candidate as int];
    let object = depth - if access.store {
        2int
    } else {
        1int
    };
    let free = aliased(cache.entries@, access.aliases@, s.vars, s.trace, access.aliases@.len());
    let found = consulted(env, candidate, e, forwarded, env.stack@[object], free.vars, free.trace, w);
    if access.store {
        stored(candidate, e, env.stack@[depth - 1], found)
    } else {
        found
    }
}

pub open spec fn access_post(
    env: OptEnv<'_>,
    cache: PropertyCache,
    access: PropertyAccessPlan,
    st: Status,
    st2: Status,
    n: int,
    forwarded: bool,
    provenance: Seq<OptProvenance>,
    depth: int,
    pc: u32,
    guard: u32,
    w: World,
) -> bool {
    match st {
        Status::Run(s) => {
            let a = accessed(env, cache, access, forwarded, depth, s, w);
            let e = cache.entries@[access.candidate as int];
            let object = depth - if access.store {
                2int
            } else {
                1int
            };
            let base = s.vals[env.stack_base as int];
            let frame = s.vals[env.frame as int];
            if !a.ok {
                exits_with(st2, deopt_trace(env, s, a.vars, a.trace, provenance, depth as nat, pc, guard, w))
            } else {
                let published = prefix_stores(a.trace, base, a.vars, env.stack@, provenance, object as nat);
                if access.store {
                    runs_on(st2, s, n, a.vars, top_store(published, *env.abi, frame, base, object))
                } else {
                    let p = a.vars[e.value.payload as int];
                    let t = a.vars[e.value.tag as int];
                    runs_on(
                        st2,
                        s,
                        n,
                        vars_after(a.vars, env.stack@[object], p, t),
                        top_store(pair_stores(published, base + object * 16, p, t), *env.abi, frame, base, depth),
                    )
                }
            }
        },
        st => st2 == st,
    }
}

/// The stack after an access: the operands of a store are gone, and a load
/// leaves a primitive.
pub open spec fn access_provenance(provenance: Seq<OptProvenance>, store: bool, depth: int) -> Seq<OptProvenance> {
    if store {
        provenance.update(depth - 2, OptProvenance::Unknown).update(depth - 1, OptProvenance::Unknown)
    } else {
        provenance.update(depth - 1, OptProvenance::ImmediatePrimitive)
    }
}

/// The variables of promoted fields were made between two points of the code, and
/// no two are the same.
pub open spec fn cache_declared(entries: Seq<CachedVars>, lo: int, hi: int, insts: Seq<Inst>) -> bool {
    &&& hi <= insts.len()
    &&& forall|i: int| 0 <= i < entries.len() ==> entry_declared(#[trigger] entries[i], lo, hi, insts)
    &&& forall|i: int, j: int|
        0 <= i < j < entries.len() ==> (#[trigger] entries[i]).dirty < (#[trigger] entries[j]).value.payload
}

pub open spec fn entry_declared(e: CachedVars, lo: int, hi: int, insts: Seq<Inst>) -> bool {
    &&& lo <= e.value.payload < e.value.tag < e.data < e.valid < e.dirty < hi
    &&& insts[e.value.payload as int] == (Inst::NewVariable { ty: Ty::I64 })
    &&& insts[e.value.tag as int] == (Inst::NewVariable { ty: Ty::I64 })
    &&& insts[e.data as int] == (Inst::NewVariable { ty: Ty::I64 })
    &&& insts[e.valid as int] == (Inst::NewVariable { ty: Ty::I8 })
    &&& insts[e.dirty as int] == (Inst::NewVariable { ty: Ty::I8 })
}

impl PropertyCache {
    pub open spec fn wf(&self) -> bool {
        self.candidates@.len() == self.entries@.len()
    }

    /// Declares the variables of the promoted fields; none is valid yet.
    pub fn from_candidates(code: &mut Code, candidates: &Vec<PropertyCandidate>) -> (r: Self)
        ensures
            kept(*old(code), *final(code)),
            steady(*old(code), *final(code)),
            r.wf(),
            r.candidates@ == candidates@,
            final(code).len() >= old(code).len(),
            forall|i: int|
                0 <= i < r.entries@.len() ==> {
                    let e = #[trigger] r.entries@[i];
                    &&& old(code).len() <= e.value.payload < final(code).len()
                    &&& e.value.tag == e.value.payload + 1
                    &&& e.data == e.value.payload + 2
                    &&& e.valid == e.value.payload + 3
                    &&& e.dirty == e.value.payload + 4
                },
            forall|i: int, j: int|
                0 <= i < j < r.entries@.len()
                    ==> (#[trigger] r.entries@[i]).value.payload + 5 <= (#[trigger] r.entries@[j]).value.payload,
            cache_declared(r.entries@, old(code).len(), final(code).len(), final(code).insts@),
            forall|w: World|
                #![trigger final(code).at(w)]
                match old(code).at(w) {
                    Status::Run(s) => runs_on(
                        final(code).at(w),
                        s,
                        old(code).len(),
                        blank_entries(s.vars, r.entries@, r.entries@.len()),
                        s.trace,
                    ),
                    st => final(code).at(w) == st,
                },
    {
        let mut chosen: Vec<PropertyCandidate> = Vec::new();
        let mut entries: Vec<CachedVars> = Vec::new();
        let mut i: usize = 0;
        while i < candidates.len()
            invariant
                kept(*old(code), *code),
                steady(*old(code), *code),
                i <= candidates@.len(),
                chosen@ == candidates@.take(i as int),
                entries@.len() == i,
                old(code).len() <= code.len(),
                forall|k: int|
                    0 <= k < i ==> {
                        let e = #[trigger] entries@[k];
                        &&& old(code).len() <= e.value.payload
                        &&& e.value.payload + 5 <= code.len()
                        &&& e.value.tag == e.value.payload + 1
                        &&& e.data == e.value.payload + 2
                        &&& e.valid == e.value.payload + 3
                        &&& e.dirty == e.value.payload + 4
                    },
                forall|a: int, b: int|
                    0 <= a < b < i
                        ==> (#[trigger] entries@[a]).value.payload + 5 <= (#[trigger] entries@[b]).value.payload,
                cache_declared(entries@, old(code).len(), code.len(), code.insts@),
                forall|w: World|
                    #![trigger code.at(w)]
                    match old(code).at(w) {
                        Status::Run(s) => runs_on(
                            code.at(w),
                            s,
                            old(code).len(),
                            blank_entries(s.vars, entries@, i as nat),
                            s.trace,
                        ),
                        st => code.at(w) == st,
                    },
            decreases candidates@.len() - i,
        {
            let ghost before = *code;
            let ghost entries0 = entries@;
            let payload = code.new_variable(Ty::I64);
            let ghost d0 = *code;
            let tag = code.new_variable(Ty::I64);
            let ghost d1 = *code;
            let data = code.new_variable(Ty::I64);
            let ghost d2 = *code;
            let valid = code.new_variable(Ty::I8);
            let ghost d3 = *code;
            let dirty = code.new_variable(Ty::I8);
            let entry = CachedVars { value: OptVars { payload, tag }, data, valid, dirty };
            let ghost declared = *code;
            let blank = undefined(code);
            let ghost blanked = *code;
            opt_define(code, entry.value, blank);
            let null = code.iconst(Ty::I64, 0);
            code.def_var(data, null);
            let no = code.iconst(Ty::I8, 0);
            code.def_var(valid, no);
            code.def_var(dirty, no);
            chosen.push(candidates[i]);
            entries.push(entry);
            proof {
                kept_instructions(before, *code);
                kept_instructions(d0, *code);
                kept_instructions(d1, *code);
                kept_instructions(d2, *code);
                kept_instructions(d3, *code);
                kept_instructions(declared, *code);
                assert(cache_declared(entries@, old(code).len(), code.len(), code.insts@));
                assert(chosen@ =~= candidates@.take(i + 1));
                assert forall|w: World|
                    #![trigger code.at(w)]
                    match old(code).at(w) {
                        Status::Run(s) => runs_on(
                            code.at(w),
                            s,
                            old(code).len(),
                            blank_entries(s.vars, entries@, (i + 1) as nat),
                            s.trace,
                        ),
                        st => code.at(w) == st,
                    } by {
                    let b = before.at(w);
                    let d = declared.at(w);
                    let l = blanked.at(w);
                    if let Status::Run(s) = old(code).at(w) {
                        blank_entries_prefix(s.vars, entries0, entries@, i as nat);
                    }
                }
            }
            i = i + 1;
        }
        proof {
            assert(candidates@.take(i as int) =~= candidates@);
        }
        PropertyCache { candidates: chosen, entries }
    }

    /// Looks at every promoted field again after a poll has published and
    /// forgotten them; anything that has changed deoptimizes before the program
    /// goes on.
    pub fn revalidate_after_poll(
        &self,
        code: &mut Code,
        env: &OptEnv<'_>,
        provenance: &Vec<OptProvenance>,
        depth: usize,
        pc: u32,
        guard: u32,
    ) -> (r: Result<(), CompileFailure>)
        requires
            self.wf(),
            env.wf(old(code).len()),
            depth <= env.stack@.len(),
        ensures
            kept(*old(code), *final(code)),
            r is Ok && env.typed(*old(code)) && cache_named(*old(code), self.entries@)
                ==> steady(*old(code), *final(code)),
            r is Ok <==> self.entries@.len() == 0 || candidates_failure(*env, self.candidates@, self.candidates@.len()) is None
                && (env.int32_loop || stack_ownable(*env, provenance@, depth as int)),
            r matches Err(e) ==> e == (match candidates_failure(*env, self.candidates@, self.candidates@.len()) {
                Some(failure) => failure,
                None => own_failure(*env, provenance@, depth as int),
            }),
            final(code).len() >= old(code).len(),
            r is Ok ==> forall|w: World|
                #![trigger final(code).at(w)]
                revalidate_post(
                    *env,
                    *self,
                    old(code).at(w),
                    final(code).at(w),
                    old(code).len(),
                    provenance@,
                    depth as int,
                    pc,
                    guard,
                    w,
                ),
    {
        if self.entries.len() == 0 {
            return Ok(());
        }
        let failed = code.new_cold_block();
        let ghost opened = *code;
        let mut i: usize = 0;
        while i < self.entries.len()
            invariant
                kept(*old(code), *code),
                env.typed(*old(code)) && cache_named(*old(code), self.entries@) ==> steady(*old(code), *code),
                env.typed(*old(code)) && cache_named(*old(code), self.entries@)
                    ==> env.typed(*code) && cache_named(*code, self.entries@) && code.unstarted(failed as int),
                code.blocked(failed),
                self.wf(),
                i <= self.entries@.len(),
                env.wf(old(code).len()),
                failed < opened.len() <= code.len(),
                old(code).len() <= failed,
                candidates_failure(*env, self.candidates@, i as nat) is None,
                forall|w: World|
                    #![trigger code.at(w)]
                    match old(code).at(w) {
                        Status::Run(s) => {
                            let v = revalidated(
                                *env,
                                self.candidates@,
                                self.entries@,
                                s.vars,
                                s.trace,
                                i as nat,
                                w,
                            );
                            steers(code.at(w), s, old(code).len(), failed, v.ok, v.vars, v.trace)
                        },
                        st => code.at(w) == st,
                    },
            decreases self.entries@.len() - i,
        {
            let candidate = self.candidates[i];
            let entry = self.entries[i];
            let property = candidate.observation;
            let ghost before = *code;
            let ghost total = self.candidates@.len();
            proof {
                assert(candidates_failure(*env, self.candidates@, (i + 1) as nat) == candidate_failure(*env, candidate));
                if candidate_failure(*env, candidate) is Some {
                    candidates_failure_stays(*env, self.candidates@, (i + 1) as nat, total);
                }
            }
            if candidate.argument as usize >= env.arguments.len() {
                return Err(CompileFailure::InvalidArtifact);
            }
            let object = opt_use(code, env.arguments[candidate.argument as usize], env.payload_type);
            let offset = match field_offset(property.property_offset) {
                Ok(offset) => offset,
                Err(e) => return Err(e),
            };
            let expected = match primitive_tag(property.value) {
                Ok(tag) => tag,
                Err(e) => return Err(e),
            };
            let ghost c1 = *code;
            let (data, current) = probe_field(code, env.abi, object, property, offset, expected, failed);
            let ghost c2 = *code;
            opt_define(code, entry.value, current);
            code.def_var(entry.data, data);
            let yes = code.iconst(Ty::I8, 1);
            let no = code.iconst(Ty::I8, 0);
            code.def_var(entry.valid, yes);
            code.def_var(entry.dirty, no);
            proof {
                assert forall|w: World|
                    #![trigger code.at(w)]
                    match old(code).at(w) {
                        Status::Run(s) => {
                            let v = revalidated(
                                *env,
                                self.candidates@,
                                self.entries@,
                                s.vars,
                                s.trace,
                                (i + 1) as nat,
                                w,
                            );
                            steers(code.at(w), s, old(code).len(), failed, v.ok, v.vars, v.trace)
                        },
                        st => code.at(w) == st,
                    } by {
                    let b = before.at(w);
                    let a1 = c1.at(w);
                    let a2 = c2.at(w);
                }
            }
            i = i + 1;
        }
        let ghost looped = *code;
        if let Err(e) = rejoin(code, env, failed, provenance, depth, pc, guard) {
            return Err(e);
        }
        proof {
            assert forall|w: World|
                #![trigger code.at(w)]
                revalidate_post(
                    *env,
                    *self,
                    old(code).at(w),
                    code.at(w),
                    old(code).len(),
                    provenance@,
                    depth as int,
                    pc,
                    guard,
                    w,
                ) by {
                waits_for_known_blocks(old(code).insts@, w);
                let l = looped.at(w);
                if let Status::Run(s) = old(code).at(w) {
                    if let Status::Wait { block, args, state } = l {
                        deopt_depends_on_frame(
                            *env,
                            s,
                            state,
                            state.vars,
                            state.trace,
                            provenance@,
                            depth as nat,
                            pc,
                            guard,
                            w,
                        );
                    }
                }
            }
        }
        Ok(())
    }

    /// Whether an access can use its promoted field.
    pub fn can_emit_access(&self, access: &PropertyAccessPlan, depth: usize, provenance: &Vec<OptProvenance>) -> (r: bool)
        ensures
            r == access_allowed(*self, *access, depth as int, provenance@),
    {
        let operands: usize = if access.store {
            2
        } else {
            1
        };
        if depth < operands || depth > provenance.len() || access.candidate >= self.entries.len() {
            return false;
        }
        let receiver: usize = depth - operands;
        if !matches!(provenance[receiver], OptProvenance::Argument(_) | OptProvenance::Local(_)) {
            return false;
        }
        let mut i: usize = 0;
        while i < depth
            invariant
                i <= depth <= provenance@.len(),
                forall|k: int|
                    0 <= k < i
                        ==> is_borrowed(#[trigger] provenance@[k]) || provenance@[k] == OptProvenance::ImmediatePrimitive,
            decreases depth - i,
        {
            if !matches!(
                provenance[i],
                OptProvenance::Argument(_) | OptProvenance::Local(_) | OptProvenance::ImmediatePrimitive
            ) {
                assert(!is_borrowed(provenance@[i as int]) && provenance@[i as int] != OptProvenance::ImmediatePrimitive);
                return false;
            }
            i = i + 1;
        }
        true
    }
}

proof fn candidates_failure_stays(env: OptEnv<'_>, candidates: Seq<PropertyCandidate>, k: nat, n: nat)
    requires
        candidates_failure(env, candidates, k) is Some,
        k <= n,
    ensures
        candidates_failure(env, candidates, n) == candidates_failure(env, candidates, k),
    decreases n,
{
    if k < n {
        candidates_failure_stays(env, candidates, k, (n - 1) as nat);
    }
}

/// Looks at a promoted field unless it is known to be valid; control leaves for
/// `failed` where the field is not as observed.
fn consult(
    code: &mut Code,
    env: &OptEnv<'_>,
    candidate: PropertyCandidate,
    entry: CachedVars,
    forwarded: bool,
    receiver: OptVars,
    offset: i32,
    expected: i32,
    failed: usize,
)
    requires
        failed < old(code).len(),
        offset == candidate.observation.property_offset * 16,
        tag_of(candidate.observation.value) == Some(expected as int),
        !env.int32_loop,
    ensures
        kept(*old(code), *final(code)),
        env.typed(*old(code)) && cached_named(*old(code), entry) && slot_named(*old(code), receiver, Ty::I64)
            && old(code).blocked(failed)
            ==> steady(*old(code), *final(code)),
        final(code).len() >= old(code).len(),
        forall|w: World|
            #![trigger final(code).at(w)]
            match old(code).at(w) {
                Status::Run(s) => {
                    let v = consulted(*env, candidate, entry, forwarded, receiver, s.vars, s.trace, w);
                    steers(final(code).at(w), s, old(code).len(), failed, v.ok, v.vars, v.trace)
                },
                st => final(code).at(w) == st,
            },
{
    if forwarded {
        return;
    }
    let valid = code.use_var(entry.valid, Ty::I8);
    let access_block = code.new_block();
    let miss = code.new_block();
    code.branch(valid, access_block, miss);
    let _ = code.switch_to(miss);
    let object = opt_use(code, receiver, Ty::I64);
    let ghost c1 = *code;
    let (data, current) = probe_field(code, env.abi, object, candidate.observation, offset, expected, failed);
    let ghost c2 = *code;
    opt_define(code, entry.value, current);
    code.def_var(entry.data, data);
    let yes = code.iconst(Ty::I8, 1);
    code.def_var(entry.valid, yes);
    code.jump(access_block);
    let _ = code.switch_to(access_block);
    proof {
        assert forall|w: World|
            #![trigger code.at(w)]
            match old(code).at(w) {
                Status::Run(s) => {
                    let v = consulted(*env, candidate, entry, forwarded, receiver, s.vars, s.trace, w);
                    steers(code.at(w), s, old(code).len(), failed, v.ok, v.vars, v.trace)
                },
                st => code.at(w) == st,
            } by {
            waits_for_known_blocks(old(code).insts@, w);
            let a1 = c1.at(w);
            let a2 = c2.at(w);
        }
    }
}

/// Makes a store of the stack top pending where its tag is as observed; control
/// leaves for `failed` otherwise.
fn store_pending(code: &mut Code, entry: CachedVars, input: OptVars, expected: i32, failed: usize)
    requires
        failed < old(code).len(),
    ensures
        kept(*old(code), *final(code)),
        cached_named(*old(code), entry) && slot_named(*old(code), input, Ty::I64) && old(code).blocked(failed)
            ==> steady(*old(code), *final(code)),
        final(code).len() >= old(code).len(),
        forall|w: World|
            #![trigger final(code).at(w)]
            match old(code).at(w) {
                Status::Run(s) => steers(
                    final(code).at(w),
                    s,
                    old(code).len(),
                    failed,
                    s.vars[input.tag as int] == expected,
                    if s.vars[input.tag as int] == expected {
                        vars_after(
                            s.vars,
                            entry.value,
                            s.vars[input.payload as int],
                            s.vars[input.tag as int],
                        ).insert(entry.dirty as int, 1)
                    } else {
                        s.vars
                    },
                    s.trace,
                ),
                st => final(code).at(w) == st,
            },
{
    let pair = opt_use(code, input, Ty::I64);
    let input_ok = opt_tag_is(code, pair.tag, expected);
    require(code, input_ok, failed);
    opt_define(code, entry.value, pair);
    let yes = code.iconst(Ty::I8, 1);
    code.def_var(entry.dirty, yes);
}

impl PropertyCache {
    /// Publishes and forgets the fields that may be the accessed one.
    fn release_aliases(&self, code: &mut Code, access: &PropertyAccessPlan) -> (r: Result<(), CompileFailure>)
        ensures
            kept(*old(code), *final(code)),
            r is Ok && cache_named(*old(code), self.entries@) ==> steady(*old(code), *final(code)),
            r is Ok <==> !exists|k: int|
                0 <= k < access.aliases@.len() && ((#[trigger] access.aliases@[k]) == access.candidate || access.aliases@[k]
                    >= self.entries@.len()),
            r is Err ==> r == Err::<(), CompileFailure>(CompileFailure::InvalidArtifact),
            final(code).len() >= old(code).len(),
            r is Ok ==> forall|w: World|
                #![trigger final(code).at(w)]
                match old(code).at(w) {
                    Status::Run(s) => {
                        let v = aliased(self.entries@, access.aliases@, s.vars, s.trace, access.aliases@.len());
                        runs_on(final(code).at(w), s, old(code).len(), v.vars, v.trace)
                    },
                    st => final(code).at(w) == st,
                },
    {
        let mut i: usize = 0;
        while i < access.aliases.len()
            invariant
                kept(*old(code), *code),
                cache_named(*old(code), self.entries@) ==> steady(*old(code), *code),
                cache_named(*old(code), self.entries@) ==> cache_named(*code, self.entries@),
                i <= access.aliases@.len(),
                old(code).len() <= code.len(),
                forall|k: int|
                    0 <= k < i ==> (#[trigger] access.aliases@[k]) != access.candidate && access.aliases@[k]
                        < self.entries@.len(),
                forall|w: World|
                    #![trigger code.at(w)]
                    match old(code).at(w) {
                        Status::Run(s) => {
                            let v = aliased(self.entries@, access.aliases@, s.vars, s.trace, i as nat);
                            runs_on(code.at(w), s, old(code).len(), v.vars, v.trace)
                        },
                        st => code.at(w) == st,
                    },
            decreases access.aliases@.len() - i,
        {
            let alias = access.aliases[i];
            if alias == access.candidate || alias >= self.entries.len() {
                assert(access.aliases@[i as int] == alias);
                return Err(CompileFailure::InvalidArtifact);
            }
            let ghost before = *code;
            flush_entry(code, self.entries[alias]);
            let ghost flushed = *code;
            invalidate_entry(code, self.entries[alias]);
            proof {
                assert forall|w: World|
                    #![trigger code.at(w)]
                    match old(code).at(w) {
                        Status::Run(s) => {
                            let v = aliased(self.entries@, access.aliases@, s.vars, s.trace, (i + 1) as nat);
                            runs_on(code.at(w), s, old(code).len(), v.vars, v.trace)
                        },
                        st => code.at(w) == st,
                    } by {
                    let b = before.at(w);
                    let f = flushed.at(w);
                }
            }
            i = i + 1;
        }
        Ok(())
    }

    /// Everything of an access up to where control goes on or is at `failed`.
    fn emit_checked_access(
        &self,
        code: &mut Code,
        env: &OptEnv<'_>,
        access: &PropertyAccessPlan,
        forwarded: bool,
        depth: usize,
        offset: i32,
        expected: i32,
    ) -> (r: Result<usize, CompileFailure>)
        requires
            self.wf(),
            access.candidate < self.entries@.len(),
            offset == self.candidates@[access.candidate as int].observation.property_offset * 16,
            tag_of(self.candidates@[access.candidate as int].observation.value) == Some(expected as int),
            !env.int32_loop,
            depth >= (if access.store {
                2
            } else {
                1int
            }),
            depth <= env.stack@.len(),
        ensures
            kept(*old(code), *final(code)),
            r is Ok && env.typed(*old(code)) && cache_named(*old(code), self.entries@)
                ==> steady(*old(code), *final(code)),
            r matches Ok(failed) ==> final(code).blocked(failed),
            r is Ok && env.typed(*old(code)) && cache_named(*old(code), self.entries@)
                ==> final(code).unstarted(r->Ok_0 as int),
            r matches Ok(failed) ==> old(code).len() <= failed,
            r is Ok <==> !exists|k: int|
                0 <= k < access.aliases@.len() && ((#[trigger] access.aliases@[k]) == access.candidate || access.aliases@[k]
                    >= self.entries@.len()),
            r is Err ==> r == Err::<usize, CompileFailure>(CompileFailure::InvalidArtifact),
            final(code).len() >= old(code).len(),
            r matches Ok(failed) ==> old(code).len() <= failed < final(code).len() && forall|w: World|
                #![trigger final(code).at(w)]
                match old(code).at(w) {
                    Status::Run(s) => {
                        let a = accessed(*env, *self, *access, forwarded, depth as int, s, w);
                        steers(final(code).at(w), s, old(code).len(), failed, a.ok, a.vars, a.trace)
                    },
                    st => final(code).at(w) == st,
                },
    {
        let entry = self.entries[access.candidate];
        let candidate = self.candidates[access.candidate];
        let object_index: usize = if access.store {
            depth - 2
        } else {
            depth - 1
        };
        if let Err(e) = self.release_aliases(code, access) {
            return Err(e);
        }
        let failed = code.new_cold_block();
        let ghost c1 = *code;
        consult(code, env, candidate, entry, forwarded, env.stack[object_index], offset, expected, failed);
        let ghost c2 = *code;
        if access.store {
            store_pending(code, entry, env.stack[depth - 1], expected, failed);
        }
        proof {
            assert forall|w: World|
                #![trigger code.at(w)]
                match old(code).at(w) {
                    Status::Run(s) => {
                        let a = accessed(*env, *self, *access, forwarded, depth as int, s, w);
                        steers(code.at(w), s, old(code).len(), failed, a.ok, a.vars, a.trace)
                    },
                    st => code.at(w) == st,
                } by {
                let a1 = c1.at(w);
                let a2 = c2.at(w);
            }
        }
        Ok(failed)
    }

    /// Emits an access of a promoted field. What it needs to know is checked
    /// before anything is written; a failing check deoptimizes.
    pub fn emit_access(
        &self,
        code: &mut Code,
        env: &OptEnv<'_>,
        access: &PropertyAccessPlan,
        node: &OptimizedNode,
        loop_forwarded: bool,
        depth: usize,
        provenance: &mut Vec<OptProvenance>,
    ) -> (r: Result<usize, CompileFailure>)
        requires
            self.wf(),
            env.wf(old(code).len()),
        ensures
            kept(*old(code), *final(code)),
            r is Ok && env.typed(*old(code)) && cache_named(*old(code), self.entries@)
                ==> steady(*old(code), *final(code)),
            r is Ok <==> access_failure(*env, *self, *access, *node, depth as int, old(provenance)@) is None && stack_ownable(
                *env,
                old(provenance)@,
                depth as int,
            ),
            r matches Err(e) ==> e == (match access_failure(*env, *self, *access, *node, depth as int, old(provenance)@) {
                Some(failure) => failure,
                None => own_failure(*env, old(provenance)@, depth as int),
            }),
            final(code).len() >= old(code).len(),
            r matches Ok(d) ==> d == (if access.store {
                depth - 2
            } else {
                depth as int
            }) && final(provenance)@ == access_provenance(old(provenance)@, access.store, depth as int),
            r is Ok ==> forall|w: World|
                #![trigger final(code).at(w)]
                access_post(
                    *env,
                    *self,
                    *access,
                    old(code).at(w),
                    final(code).at(w),
                    old(code).len(),
                    loop_forwarded,
                    old(provenance)@,
                    depth as int,
                    node.pc,
                    node.deopt_guard->Some_0,
                    w,
                ),
    {
        if !self.can_emit_access(access, depth, provenance) || env.int32_loop {
            return Err(CompileFailure::InvalidArtifact);
        }
        let name = crate::ir::node_name(node);
        let expected_name = if access.store {
            "put_field"
        } else {
            "get_field"
        };
        if !name_is(name, expected_name) {
            return Err(CompileFailure::InvalidArtifact);
        }
        let entry = self.entries[access.candidate];
        let candidate = self.candidates[access.candidate];
        let property = candidate.observation;
        if candidate.argument as usize >= env.arguments.len() || env.stack.len() < depth {
            return Err(CompileFailure::InvalidArtifact);
        }
        let guard = match node.deopt_guard {
            Some(guard) => guard,
            None => return Err(CompileFailure::InvalidArtifact),
        };
        let expected = match primitive_tag(property.value) {
            Ok(tag) => tag,
            Err(e) => return Err(e),
        };
        let offset = match field_offset(property.property_offset) {
            Ok(offset) => offset,
            Err(e) => return Err(e),
        };
        if property.shape_identity == 0 || property.shape_generation == 0 || property.prototype_identity != 0
            || property.prototype_generation != 0 || property.accessor || !property.writable {
            return Err(CompileFailure::InvalidArtifact);
        }
        let object_index: usize = if access.store {
            depth - 2
        } else {
            depth - 1
        };
        let failed = match self.emit_checked_access(code, env, access, loop_forwarded, depth, offset, expected) {
            Ok(failed) => failed,
            Err(e) => return Err(e),
        };
        let ghost c1 = *code;
        if let Err(e) = rejoin(code, env, failed, provenance, depth, node.pc, guard) {
            return Err(e);
        }
        let ghost c2 = *code;
        publish_prefix(code, env, provenance, object_index);
        let ghost c3 = *code;
        let new_depth: usize = if access.store {
            provenance.set(object_index, OptProvenance::Unknown);
            provenance.set(depth - 1, OptProvenance::Unknown);
            object_index
        } else {
            let pair = opt_use(code, entry.value, Ty::I64);
            opt_define(code, env.stack[object_index], pair);
            provenance.set(object_index, OptProvenance::ImmediatePrimitive);
            opt_store(code, env.stack_base, object_index, pair, Ty::I64);
            depth
        };
        let ghost c4 = *code;
        opt_set_stack_top(code, env, new_depth);
        proof {
            assert forall|w: World|
                #![trigger code.at(w)]
                access_post(
                    *env,
                    *self,
                    *access,
                    old(code).at(w),
                    code.at(w),
                    old(code).len(),
                    loop_forwarded,
                    old(provenance)@,
                    depth as int,
                    node.pc,
                    guard,
                    w,
                ) by {
                waits_for_known_blocks(old(code).insts@, w);
                let a1 = c1.at(w);
                let a2 = c2.at(w);
                let a3 = c3.at(w);
                let a4 = c4.at(w);
                if let Status::Run(s) = old(code).at(w) {
                    if let Status::Wait { block, args, state } = a1 {
                        deopt_depends_on_frame(
                            *env,
                            s,
                            state,
                            state.vars,
                            state.trace,
                            old(provenance)@,
                            depth as nat,
                            node.pc,
                            guard,
                            w,
                        );
                    }
                }
            }
        }
        Ok(new_depth)
    }
}

} // verus!
