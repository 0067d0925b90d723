//! Leaving emitted code: spilling the frame, making stack slots owners, and
//! deoptimizing.
use crate::code::quiet;
use crate::code::value;
use crate::code::waits_for_known_blocks;
use crate::code::wrap;
use crate::code::BinaryOp;
use crate::code::kept;
use crate::code::Code;
use crate::code::Event;
use crate::code::IntCc;
use crate::code::State;
use crate::code::Status;
use crate::code::Ty;
use crate::code::World;
use crate::control::CompileFailure;
use crate::frame::as_arguments;
use crate::frame::call_helper;
use crate::frame::emit_opt_exit;
use crate::frame::exit_record;
use crate::frame::exits_with;
use crate::frame::flows;
use crate::frame::helper_call;
use crate::frame::helper_known;
use crate::frame::helper_status;
use crate::frame::opt_set_stack_top;
use crate::frame::runs_on;
use crate::frame::top_store;
use crate::frame::CachedVars;
use crate::frame::Flow;
use crate::frame::OptEnv;
use crate::frame::RuntimeAbi;
use crate::frame::MAX_SLOTS;
use crate::lower_values::opt_store;
use crate::lower_values::opt_store_at;
use crate::lower_values::opt_use;
use crate::lower_values::pair_stores;
use crate::lower_values::undefined;
use crate::lower_values::OptPair;
use crate::lower_values::OptVars;
use crate::provenance::OptProvenance;
use crate::qjs::JS_TAG_UNDEFINED;
use crate::typing::steady;
use crate::typing::closing;
use crate::typing::calm;
use crate::assemble::Known;
use crate::frame_typing::pair_held;
use crate::frame_typing::slot_named;
use crate::frame_typing::slots_named;
use crate::frame_typing::cached_named;
use crate::frame_typing::cache_named;
use crate::frame_typing::word_types;
use vstd::prelude::*;

verus! {

broadcast use {crate::typing::group_typing, crate::frame_typing::group_frame};

/// The first `k` slots, written to a buffer of tagged values.
pub open spec fn slot_stores(trace: Seq<Event>, base: int, vars: Map<int, int>, slots: Seq<OptVars>, k: nat) -> Seq<Event>
    decreases k,
{
    if k == 0 {
        trace
    } else {
        pair_stores(
            slot_stores(trace, base, vars, slots, (k - 1) as nat),
            base + (k - 1) * 16,
            vars[slots[k - 1].payload as int],
            vars[slots[k - 1].tag as int],
        )
    }
}

/// Writes the first `count` slots to a buffer.
pub fn store_slots(code: &mut Code, base: usize, slots: &Vec<OptVars>, count: usize, payload_type: Ty)
    requires
        base < old(code).len(),
        count <= slots@.len() <= MAX_SLOTS,
    ensures
        kept(*old(code), *final(code)),
        old(code).holds(base, Ty::I64) && slots_named(*old(code), slots@, payload_type)
            && (payload_type == Ty::I32 || payload_type == Ty::I64)
            ==> steady(*old(code), *final(code)),
        final(code).len() >= old(code).len(),
        forall|w: World|
            #![trigger final(code).at(w)]
            match old(code).at(w) {
                Status::Run(s) => runs_on(
                    final(code).at(w),
                    s,
                    old(code).len(),
                    s.vars,
                    slot_stores(s.trace, s.vals[base as int], s.vars, slots@, count as nat),
                ),
                st => final(code).at(w) == st,
            },
{
    let mut i: usize = 0;
    while i < count
        invariant
            kept(*old(code), *code),
            old(code).holds(base, Ty::I64) && slots_named(*old(code), slots@, payload_type)
                && (payload_type == Ty::I32 || payload_type == Ty::I64)
                ==> steady(*old(code), *code),
            old(code).holds(base, Ty::I64) && slots_named(*old(code), slots@, payload_type)
                && (payload_type == Ty::I32 || payload_type == Ty::I64)
                ==> slots_named(*code, slots@, payload_type),
            i <= count <= slots@.len() <= MAX_SLOTS,
            base < old(code).len() <= code.len(),
            forall|w: World|
                #![trigger code.at(w)]
                match old(code).at(w) {
                    Status::Run(s) => runs_on(
                        code.at(w),
                        s,
                        old(code).len(),
                        s.vars,
                        slot_stores(s.trace, s.vals[base as int], s.vars, slots@, i as nat),
                    ),
                    st => code.at(w) == st,
                },
        decreases count - i,
    {
        let ghost before = *code;
        let pair = opt_use(code, slots[i], payload_type);
        let ghost used = *code;
        opt_store(code, base, i, pair, payload_type);
        proof {
            assert forall|w: World|
                #![trigger code.at(w)]
                match old(code).at(w) {
                    Status::Run(s) => runs_on(
                        code.at(w),
                        s,
                        old(code).len(),
                        s.vars,
                        slot_stores(s.trace, s.vals[base as int], s.vars, slots@, (i + 1) as nat),
                    ),
                    st => code.at(w) == st,
                } by {
                let a = before.at(w);
                let b = used.at(w);
            }
        }
        i = i + 1;
    }
}

/// A promoted field after its pending write, if any, was published.
pub open spec fn flushed_vars(vars: Map<int, int>, e: CachedVars) -> Map<int, int> {
    if vars[e.dirty as int] != 0 {
        vars.insert(e.dirty as int, 0)
    } else {
        vars
    }
}

pub open spec fn flushed_trace(vars: Map<int, int>, trace: Seq<Event>, e: CachedVars) -> Seq<Event> {
    if vars[e.dirty as int] != 0 {
        pair_stores(trace, vars[e.data as int], vars[e.value.payload as int], vars[e.value.tag as int])
    } else {
        trace
    }
}

pub open spec fn flush_vars(vars: Map<int, int>, cache: Seq<CachedVars>, k: nat) -> Map<int, int>
    decreases k,
{
    if k == 0 {
        vars
    } else {
        flushed_vars(flush_vars(vars, cache, (k - 1) as nat), cache[k - 1])
    }
}

pub open spec fn flush_trace(vars: Map<int, int>, trace: Seq<Event>, cache: Seq<CachedVars>, k: nat) -> Seq<Event>
    decreases k,
{
    if k == 0 {
        trace
    } else {
        flushed_trace(
            flush_vars(vars, cache, (k - 1) as nat),
            flush_trace(vars, trace, cache, (k - 1) as nat),
            cache[k - 1],
        )
    }
}

/// A second flush writes nothing: a pending write is published exactly once.
pub proof fn flush_is_idempotent(vars: Map<int, int>, trace: Seq<Event>, cache: Seq<CachedVars>)
    ensures
        ({
            let once = flush_vars(vars, cache, cache.len());
            flush_vars(once, cache, cache.len()) == once && flush_trace(once, trace, cache, cache.len()) == trace
        }),
{
    flush_clears(vars, cache, cache.len());
    clean_flush_is_silent(flush_vars(vars, cache, cache.len()), trace, cache, cache.len());
}

/// Where nothing is pending a flush writes nothing.
pub proof fn clean_flush_is_silent(vars: Map<int, int>, trace: Seq<Event>, cache: Seq<CachedVars>, k: nat)
    requires
        k <= cache.len(),
        forall|i: int| 0 <= i < k ==> vars[(#[trigger] cache[i]).dirty as int] == 0,
    ensures
        flush_vars(vars, cache, k) == vars,
        flush_trace(vars, trace, cache, k) == trace,
    decreases k,
{
    if k > 0 {
        clean_flush_is_silent(vars, trace, cache, (k - 1) as nat);
        assert(vars[cache[k - 1].dirty as int] == 0);
    }
}

/// A flush leaves no entry pending.
pub proof fn flush_clears(vars: Map<int, int>, cache: Seq<CachedVars>, k: nat)
    requires
        k <= cache.len(),
    ensures
        forall|i: int| 0 <= i < k ==> flush_vars(vars, cache, k)[(#[trigger] cache[i]).dirty as int] == 0,
    decreases k,
{
    if k > 0 {
        flush_clears(vars, cache, (k - 1) as nat);
    }
}

/// Publishes a pending write of one promoted field.
pub fn flush_entry(code: &mut Code, entry: CachedVars)
    ensures
        kept(*old(code), *final(code)),
        cached_named(*old(code), entry) ==> steady(*old(code), *final(code)),
        final(code).len() > old(code).len(),
        forall|w: World|
            #![trigger final(code).at(w)]
            match old(code).at(w) {
                Status::Run(s) => runs_on(
                    final(code).at(w),
                    s,
                    old(code).len(),
                    flushed_vars(s.vars, entry),
                    flushed_trace(s.vars, s.trace, entry),
                ),
                st => final(code).at(w) == st,
            },
{
    let dirty = code.use_var(entry.dirty, Ty::I8);
    let commit = code.new_block();
    let done = code.new_block();
    code.branch(dirty, commit, done);
    let _ = code.switch_to(commit);
    let ghost pending = *code;
    let data = code.use_var(entry.data, Ty::I64);
    let pair = opt_use(code, entry.value, Ty::I64);
    let ghost used = *code;
    opt_store_at(code, data, 0, pair, Ty::I64);
    let ghost stored = *code;
    let no = code.iconst(Ty::I8, 0);
    code.def_var(entry.dirty, no);
    code.jump(done);
    let _ = code.switch_to(done);
    proof {
        assert forall|w: World|
            #![trigger code.at(w)]
            match old(code).at(w) {
                Status::Run(s) => runs_on(
                    code.at(w),
                    s,
                    old(code).len(),
                    flushed_vars(s.vars, entry),
                    flushed_trace(s.vars, s.trace, entry),
                ),
                st => code.at(w) == st,
            } by {
            waits_for_known_blocks(old(code).insts@, w);
            let a = pending.at(w);
            let b = used.at(w);
            let c = stored.at(w);
        }
    }
}

/// Publishes every pending write: before any callback, ownership helper or
/// exit can observe the object.
pub fn flush(code: &mut Code, cache: &Vec<CachedVars>)
    ensures
        kept(*old(code), *final(code)),
        cache_named(*old(code), cache@) ==> steady(*old(code), *final(code)),
        final(code).len() >= old(code).len(),
        forall|w: World|
            #![trigger final(code).at(w)]
            match old(code).at(w) {
                Status::Run(s) => runs_on(
                    final(code).at(w),
                    s,
                    old(code).len(),
                    flush_vars(s.vars, cache@, cache@.len()),
                    flush_trace(s.vars, s.trace, cache@, cache@.len()),
                ),
                st => final(code).at(w) == st,
            },
{
    let mut i: usize = 0;
    while i < cache.len()
        invariant
            kept(*old(code), *code),
            cache_named(*old(code), cache@) ==> steady(*old(code), *code),
            cache_named(*old(code), cache@) ==> cache_named(*code, cache@),
            i <= cache@.len(),
            old(code).len() <= code.len(),
            forall|w: World|
                #![trigger code.at(w)]
                match old(code).at(w) {
                    Status::Run(s) => runs_on(
                        code.at(w),
                        s,
                        old(code).len(),
                        flush_vars(s.vars, cache@, i as nat),
                        flush_trace(s.vars, s.trace, cache@, i as nat),
                    ),
                    st => code.at(w) == st,
                },
        decreases cache@.len() - i,
    {
        let ghost before = *code;
        flush_entry(code, cache[i]);
        proof {
            assert forall|w: World|
                #![trigger code.at(w)]
                match old(code).at(w) {
                    Status::Run(s) => runs_on(
                        code.at(w),
                        s,
                        old(code).len(),
                        flush_vars(s.vars, cache@, (i + 1) as nat),
                        flush_trace(s.vars, s.trace, cache@, (i + 1) as nat),
                    ),
                    st => code.at(w) == st,
                } by {
                let a = before.at(w);
            }
        }
        i = i + 1;
    }
}

/// The argument or local that a borrowed stack slot aliases.
pub open spec fn owner_source(abi: RuntimeAbi, p: OptProvenance) -> Option<(u32, usize)> {
    match p {
        OptProvenance::Argument(slot) => Some((abi.owner_source_argument, slot)),
        OptProvenance::Local(slot) => Some((abi.owner_source_local, slot)),
        _ => None,
    }
}

/// Makes stack slot `index` an owner: a primitive and an owned value already
/// are; a borrowed alias gets a reference of its own from the runtime.
pub open spec fn own_step(trace: Seq<Event>, env: OptEnv<'_>, s: State, p: OptProvenance, index: int, w: World) -> Flow {
    let frame = s.vals[env.frame as int];
    let stack_base = s.vals[env.stack_base as int];
    match owner_source(*env.abi, p) {
        None => Flow { running: true, trace: top_store(trace, *env.abi, frame, stack_base, index + 1) },
        Some((kind, slot)) => {
            let cleared = pair_stores(trace, stack_base + index * 16, 0, JS_TAG_UNDEFINED as int);
            let called = helper_call(
                cleared,
                *env.abi,
                frame,
                env.abi.helper_materialize_owner as int,
                as_arguments(seq![0, index as u32, kind, slot as u32]),
                w,
            );
            if helper_status(cleared, w) == env.abi.materialized {
                Flow { running: true, trace: called }
            } else {
                Flow {
                    running: false,
                    trace: exit_record(called, *env.abi, s.vals[env.sret as int], env.abi.exit_exception, 0, 0),
                }
            }
        },
    }
}

pub open spec fn own_flow(trace: Seq<Event>, env: OptEnv<'_>, s: State, provenance: Seq<OptProvenance>, k: nat, w: World) -> Flow
    decreases k,
{
    if k == 0 {
        Flow {
            running: true,
            trace: top_store(trace, *env.abi, s.vals[env.frame as int], s.vals[env.stack_base as int], 0),
        }
    } else {
        let before = own_flow(trace, env, s, provenance, (k - 1) as nat, w);
        if before.running {
            own_step(before.trace, env, s, provenance[k - 1], k - 1, w)
        } else {
            before
        }
    }
}

pub open spec fn slot_ownable(env: OptEnv<'_>, p: OptProvenance) -> bool {
    &&& p != OptProvenance::Unknown
    &&& owner_source(*env.abi, p) matches Some((kind, slot)) ==> helper_known(env, env.abi.helper_materialize_owner) && slot
        <= u32::MAX
}

/// Every live stack slot can be made an owner.
pub open spec fn stack_ownable(env: OptEnv<'_>, provenance: Seq<OptProvenance>, depth: int) -> bool {
    depth <= provenance.len() && forall|i: int| 0 <= i < depth ==> slot_ownable(env, #[trigger] provenance[i])
}

/// Why stack slot `i` cannot be made an owner: nothing is known of it, a helper
/// is missing, or a slot number is out of range.
pub open spec fn slot_refusal(env: OptEnv<'_>, provenance: Seq<OptProvenance>, i: int) -> Option<CompileFailure> {
    if i < provenance.len() && slot_ownable(env, provenance[i]) {
        None
    } else if i < provenance.len() && provenance[i] != OptProvenance::Unknown && helper_known(
        env,
        env.abi.helper_materialize_owner,
    ) {
        Some(CompileFailure::ResourceLimit)
    } else {
        Some(CompileFailure::InvalidArtifact)
    }
}

/// Why the lowest `k` stack slots cannot be made owners: the first that cannot
/// decides.
pub open spec fn own_refusal(env: OptEnv<'_>, provenance: Seq<OptProvenance>, k: nat) -> Option<CompileFailure>
    decreases k,
{
    if k == 0 {
        None
    } else {
        match own_refusal(env, provenance, (k - 1) as nat) {
            Some(e) => Some(e),
            None => slot_refusal(env, provenance, k - 1),
        }
    }
}

/// The failure of code that makes the stack an owner: where the stack is not to
/// blame, something that the code needs is missing.
#[verifier::opaque]
pub open spec fn own_failure(env: OptEnv<'_>, provenance: Seq<OptProvenance>, depth: int) -> CompileFailure {
    match own_refusal(env, provenance, depth as nat) {
        Some(e) => e,
        None => CompileFailure::InvalidArtifact,
    }
}

/// The failure of code that is looked at before the stack is made an owner.
pub open spec fn placed_failure(placed: bool, env: OptEnv<'_>, provenance: Seq<OptProvenance>, depth: int) -> CompileFailure {
    if placed {
        own_failure(env, provenance, depth)
    } else {
        CompileFailure::InvalidArtifact
    }
}

proof fn refusal_stays(env: OptEnv<'_>, provenance: Seq<OptProvenance>, a: nat, b: nat)
    requires
        a <= b,
        own_refusal(env, provenance, a) is Some,
    ensures
        own_refusal(env, provenance, b) == own_refusal(env, provenance, a),
    decreases b,
{
    if a < b {
        refusal_stays(env, provenance, a, (b - 1) as nat);
    }
}

/// The stack can be made an owner exactly where nothing stands against it.
pub proof fn ownable_without_refusal(env: OptEnv<'_>, provenance: Seq<OptProvenance>, k: nat)
    ensures
        stack_ownable(env, provenance, k as int) <==> own_refusal(env, provenance, k) is None,
    decreases k,
{
    if k > 0 {
        ownable_without_refusal(env, provenance, (k - 1) as nat);
        if stack_ownable(env, provenance, k as int) {
            assert(slot_ownable(env, provenance[k - 1]));
        }
    }
}

/// Where the whole stack can be made an owner, it is not to blame.
pub broadcast proof fn own_failures(env: OptEnv<'_>, provenance: Seq<OptProvenance>, depth: int)
    ensures
        #[trigger] own_failure(env, provenance, depth) == CompileFailure::InvalidArtifact || own_failure(env, provenance, depth)
            == CompileFailure::ResourceLimit,
        depth >= 0 && stack_ownable(env, provenance, depth)
            ==> own_failure(env, provenance, depth) == CompileFailure::InvalidArtifact,
{
    reveal(own_failure);
    ownable_without_refusal(env, provenance, depth as nat);
    refusals(env, provenance, depth as nat);
}

proof fn refusals(env: OptEnv<'_>, provenance: Seq<OptProvenance>, k: nat)
    ensures
        own_refusal(env, provenance, k) matches Some(e) ==> e == CompileFailure::InvalidArtifact || e
            == CompileFailure::ResourceLimit,
    decreases k,
{
    if k > 0 {
        refusals(env, provenance, (k - 1) as nat);
    }
}

fn own_slot(code: &mut Code, env: &OptEnv<'_>, index: usize, kind: u32, slot: u32, blank: OptPair)
    requires
        env.wf(old(code).len()),
        index < MAX_SLOTS,
        helper_known(*env, env.abi.helper_materialize_owner),
        blank.payload < old(code).len(),
        blank.tag < old(code).len(),
    ensures
        kept(*old(code), *final(code)),
        env.typed(*old(code)) && pair_held(*old(code), blank) ==> steady(*old(code), *final(code)),
        final(code).len() >= old(code).len(),
        forall|w: World|
            #![trigger final(code).at(w)]
            match old(code).at(w) {
                Status::Run(s) => s.vals[blank.payload as int] == 0 && s.vals[blank.tag as int] == JS_TAG_UNDEFINED ==> {
                    let cleared = pair_stores(
                        s.trace,
                        s.vals[env.stack_base as int] + index * 16,
                        0,
                        JS_TAG_UNDEFINED as int,
                    );
                    let called = helper_call(
                        cleared,
                        *env.abi,
                        s.vals[env.frame as int],
                        env.abi.helper_materialize_owner as int,
                        as_arguments(seq![0, index as u32, kind, slot]),
                        w,
                    );
                    if helper_status(cleared, w) == env.abi.materialized {
                        runs_on(final(code).at(w), s, old(code).len(), s.vars, called)
                    } else {
                        exits_with(
                            final(code).at(w),
                            exit_record(called, *env.abi, s.vals[env.sret as int], env.abi.exit_exception, 0, 0),
                        )
                    }
                },
                st => final(code).at(w) == st,
            },
{
    opt_store(code, env.stack_base, index, blank, Ty::I64);
    let ghost cleared = *code;
    let mut arguments: Vec<u32> = Vec::new();
    arguments.push(0);
    arguments.push(index as u32);
    arguments.push(kind);
    arguments.push(slot);
    assert(arguments@ =~= seq![0, index as u32, kind, slot]);
    let status = call_helper(code, env, env.abi.helper_materialize_owner, &arguments);
    let ghost called = *code;
    let ok = code.compare_imm(IntCc::Equal, Ty::I32, status, env.abi.materialized);
    let continuation = code.new_block();
    let exception = code.new_block();
    code.branch(ok, continuation, exception);
    let _ = code.switch_to(exception);
    let ghost failing = *code;
    emit_opt_exit(code, env, env.abi.exit_exception, None, 0);
    let ghost left = *code;
    let _ = code.switch_to(continuation);
    proof {
        assert forall|w: World|
            #![trigger code.at(w)]
            match old(code).at(w) {
                Status::Run(s) => s.vals[blank.payload as int] == 0 && s.vals[blank.tag as int] == JS_TAG_UNDEFINED ==> {
                    let cleared = pair_stores(
                        s.trace,
                        s.vals[env.stack_base as int] + index * 16,
                        0,
                        JS_TAG_UNDEFINED as int,
                    );
                    let called = helper_call(
                        cleared,
                        *env.abi,
                        s.vals[env.frame as int],
                        env.abi.helper_materialize_owner as int,
                        as_arguments(seq![0, index as u32, kind, slot]),
                        w,
                    );
                    if helper_status(cleared, w) == env.abi.materialized {
                        runs_on(code.at(w), s, old(code).len(), s.vars, called)
                    } else {
                        exits_with(
                            code.at(w),
                            exit_record(called, *env.abi, s.vals[env.sret as int], env.abi.exit_exception, 0, 0),
                        )
                    }
                },
                st => code.at(w) == st,
            } by {
            waits_for_known_blocks(old(code).insts@, w);
            let a = cleared.at(w);
            let b = called.at(w);
            let c = failing.at(w);
            let d = left.at(w);
        }
    }
}

/// Makes every live stack slot a real interpreter owner, so that whatever
/// leaves the function next unwinds the frame correctly.
pub fn opt_own_stack_for_exit(code: &mut Code, env: &OptEnv<'_>, depth: usize, provenance: &Vec<OptProvenance>) -> (r: Result<
    (),
    CompileFailure,
>)
    requires
        env.wf(old(code).len()),
        depth < MAX_SLOTS,
    ensures
        kept(*old(code), *final(code)),
        r is Ok && env.typed(*old(code)) ==> steady(*old(code), *final(code)),
        r is Ok <==> stack_ownable(*env, provenance@, depth as int),
        r matches Err(e) ==> e == own_failure(*env, provenance@, depth as int),
        final(code).len() >= old(code).len(),
        r is Ok ==> forall|w: World|
            #![trigger final(code).at(w)]
            match old(code).at(w) {
                Status::Run(s) => flows(
                    final(code).at(w),
                    s,
                    old(code).len(),
                    s.vars,
                    own_flow(s.trace, *env, s, provenance@, depth as nat, w),
                ),
                st => final(code).at(w) == st,
            },
{
    let blank = undefined(code);
    let ghost start = *code;
    opt_set_stack_top(code, env, 0);
    let mut index: usize = 0;
    while index < depth
        invariant
            kept(*old(code), *code),
            env.typed(*old(code)) ==> steady(*old(code), *code),
            env.typed(*old(code)) ==> env.typed(*code),
            pair_held(*code, blank),
            index <= depth < MAX_SLOTS,
            env.wf(old(code).len()),
            old(code).len() <= start.len() <= code.len(),
            blank.payload < start.len(),
            blank.tag < start.len(),
            index <= provenance@.len(),
            forall|i: int| 0 <= i < index ==> slot_ownable(*env, #[trigger] provenance@[i]),
            own_refusal(*env, provenance@, index as nat) is None,
            forall|w: World|
                #![trigger start.at(w)]
                quiet(old(code).at(w), start.at(w), old(code).len()) && (old(code).at(w) is Run ==> value(
                    start.at(w),
                    blank.payload,
                ) == 0 && value(start.at(w), blank.tag) == JS_TAG_UNDEFINED),
            forall|w: World|
                #![trigger code.at(w)]
                match start.at(w) {
                    Status::Run(s) => flows(
                        code.at(w),
                        s,
                        start.len(),
                        s.vars,
                        own_flow(s.trace, *env, s, provenance@, index as nat, w),
                    ),
                    st => code.at(w) == st,
                },
        decreases depth - index,
    {
        let ghost before = *code;
        proof {
            reveal(own_failure);
            if own_refusal(*env, provenance@, (index + 1) as nat) is Some {
                refusal_stays(*env, provenance@, (index + 1) as nat, depth as nat);
            }
        }
        if index >= provenance.len() {
            return Err(CompileFailure::InvalidArtifact);
        }
        let (kind, slot): (u32, usize) = match provenance[index] {
            OptProvenance::Unknown => {
                assert(!slot_ownable(*env, provenance@[index as int]));
                return Err(CompileFailure::InvalidArtifact);
            },
            OptProvenance::ImmediatePrimitive | OptProvenance::OwnedSlot => (0, 0),
            OptProvenance::Argument(slot) => (env.abi.owner_source_argument, slot),
            OptProvenance::Local(slot) => (env.abi.owner_source_local, slot),
        };
        let borrowed: bool = match provenance[index] {
            OptProvenance::Argument(_) | OptProvenance::Local(_) => true,
            _ => false,
        };
        if borrowed {
            if env.abi.helper_materialize_owner >= env.helper_signatures.len() || env.abi.helper_materialize_owner
                >= env.abi.helper_offsets.len() {
                assert(!slot_ownable(*env, provenance@[index as int]));
                return Err(CompileFailure::InvalidArtifact);
            }
            if slot > 0xffff_ffff {
                assert(!slot_ownable(*env, provenance@[index as int]));
                return Err(CompileFailure::ResourceLimit);
            }
            own_slot(code, env, index, kind, slot as u32, blank);
        } else {
            opt_set_stack_top(code, env, index + 1);
        }
        proof {
            assert forall|w: World|
                #![trigger code.at(w)]
                match start.at(w) {
                    Status::Run(s) => flows(
                        code.at(w),
                        s,
                        start.len(),
                        s.vars,
                        own_flow(s.trace, *env, s, provenance@, (index + 1) as nat, w),
                    ),
                    st => code.at(w) == st,
                } by {
                let a = before.at(w);
                if let Status::Run(s) = start.at(w) {
                    let f = own_flow(s.trace, *env, s, provenance@, index as nat, w);
                    if f.running {
                        let t = a->Run_0;
                        assert(t.vals[blank.payload as int] == s.vals[blank.payload as int]);
                        assert(t.vals[blank.tag as int] == s.vals[blank.tag as int]);
                        assert(t.vals[env.frame as int] == s.vals[env.frame as int]);
                        assert(t.vals[env.stack_base as int] == s.vals[env.stack_base as int]);
                        assert(t.vals[env.sret as int] == s.vals[env.sret as int]);
                    }
                }
            }
        }
        index = index + 1;
    }
    proof {
        assert forall|w: World|
            #![trigger code.at(w)]
            match old(code).at(w) {
                Status::Run(s) => flows(
                    code.at(w),
                    s,
                    old(code).len(),
                    s.vars,
                    own_flow(s.trace, *env, s, provenance@, depth as nat, w),
                ),
                st => code.at(w) == st,
            } by {
            let a = start.at(w);
            if let Status::Run(s) = old(code).at(w) {
                let t = a->Run_0;
                same_own_flow(s.trace, *env, s, t, provenance@, depth as nat, w);
            }
        }
    }
    Ok(())
}

/// The flow depends on the frame's addresses alone.
pub proof fn same_own_flow(
    trace: Seq<Event>,
    env: OptEnv<'_>,
    s: State,
    t: State,
    provenance: Seq<OptProvenance>,
    k: nat,
    w: World,
)
    requires
        t.vals[env.frame as int] == s.vals[env.frame as int],
        t.vals[env.stack_base as int] == s.vals[env.stack_base as int],
        t.vals[env.sret as int] == s.vals[env.sret as int],
    ensures
        own_flow(trace, env, s, provenance, k, w) == own_flow(trace, env, t, provenance, k, w),
    decreases k,
{
    if k > 0 {
        same_own_flow(trace, env, s, t, provenance, (k - 1) as nat, w);
    }
}

/// The whole frame, published.
pub open spec fn spill(trace: Seq<Event>, env: OptEnv<'_>, s: State, vars: Map<int, int>, depth: nat) -> Seq<Event> {
    slot_stores(
        slot_stores(
            slot_stores(trace, s.vals[env.arg_buf as int], vars, env.arguments@, env.arguments@.len()),
            s.vals[env.var_buf as int],
            vars,
            env.locals@,
            env.locals@.len(),
        ),
        s.vals[env.stack_base as int],
        vars,
        env.stack@,
        depth,
    )
}

/// The load that finds the bytecode, and the store of the program counter.
pub open spec fn pc_store(trace: Seq<Event>, abi: RuntimeAbi, frame: int, pc: u32, w: World) -> Seq<Event> {
    let start = wrap(Ty::I64, (w.observe)(trace.len() as int));
    trace.push(Event::Load { ty: Ty::I64, address: wrap(Ty::I64, frame + abi.bytecode_start), value: start }).push(
        Event::Store { ty: Ty::I64, address: wrap(Ty::I64, frame + abi.pc), value: pc_address(trace, pc, w) },
    )
}

pub open spec fn pc_address(trace: Seq<Event>, pc: u32, w: World) -> int {
    wrap(Ty::I64, wrap(Ty::I64, (w.observe)(trace.len() as int)) + pc)
}

/// Publishes the program counter; answers its address.
pub fn set_pc(code: &mut Code, env: &OptEnv<'_>, pc: u32) -> (r: usize)
    requires
        env.wf(old(code).len()),
    ensures
        kept(*old(code), *final(code)),
        env.typed(*old(code)) ==> steady(*old(code), *final(code)),
        final(code).kind(r as int) == Known::Value(Ty::I64),
        r < final(code).len(),
        old(code).len() < final(code).len(),
        forall|w: World|
            #![trigger final(code).at(w)]
            match old(code).at(w) {
                Status::Run(s) => runs_on(
                    final(code).at(w),
                    s,
                    old(code).len(),
                    s.vars,
                    pc_store(s.trace, *env.abi, s.vals[env.frame as int], pc, w),
                ) && value(final(code).at(w), r) == pc_address(s.trace, pc, w),
                st => final(code).at(w) == st,
            },
{
    let start = code.load(Ty::I64, env.frame, env.abi.bytecode_start);
    let resume = code.binary_imm(BinaryOp::Add, Ty::I64, start, pc as i64);
    code.store(Ty::I64, resume, env.frame, env.abi.pc);
    resume
}

/// Everything that happens between the decision to deoptimize and the exit:
/// pending writes are published, the frame is spilled with every operand, the
/// program counter is that of the instruction to execute again, and borrowed
/// stack slots become owners.
pub open spec fn deopt_trace(
    env: OptEnv<'_>,
    s: State,
    vars: Map<int, int>,
    trace: Seq<Event>,
    provenance: Seq<OptProvenance>,
    depth: nat,
    pc: u32,
    guard: u32,
    w: World,
) -> Seq<Event> {
    let frame = s.vals[env.frame as int];
    let clean = flush_vars(vars, env.cache@, env.cache@.len());
    let spilled = spill(flush_trace(vars, trace, env.cache@, env.cache@.len()), env, s, clean, depth);
    let topped = top_store(spilled, *env.abi, frame, s.vals[env.stack_base as int], depth as int);
    let resume = pc_address(topped, pc, w);
    let at_pc = pc_store(topped, *env.abi, frame, pc, w);
    let owned = if env.int32_loop {
        Flow { running: true, trace: at_pc }
    } else {
        own_flow(at_pc, env, s, provenance, depth, w)
    };
    if owned.running {
        exit_record(owned.trace, *env.abi, s.vals[env.sret as int], env.abi.exit_deopt, resume, guard)
    } else {
        owned.trace
    }
}

/// Spills the complete frame, records the resume pc and leaves through the
/// exact deoptimization exit of `guard`. `depth` is the operand-stack depth
/// before the deoptimizing instruction pops its inputs, so the interpreter
/// executes it again with every operand materialized and no effect applied.
pub fn emit_opt_deopt(code: &mut Code, env: &OptEnv<'_>, provenance: &Vec<OptProvenance>, depth: usize, pc: u32, guard: u32) -> (r: Result<
    (),
    CompileFailure,
>)
    requires
        env.wf(old(code).len()),
        depth <= env.stack@.len(),
    ensures
        kept(*old(code), *final(code)),
        r is Ok && env.typed(*old(code)) ==> closing(*old(code), *final(code)),
        r is Ok <==> env.int32_loop || stack_ownable(*env, provenance@, depth as int),
        r matches Err(e) ==> e == own_failure(*env, provenance@, depth as int),
        final(code).len() >= old(code).len(),
        r is Ok ==> forall|w: World|
            #![trigger final(code).at(w)]
            match old(code).at(w) {
                Status::Run(s) => exits_with(
                    final(code).at(w),
                    deopt_trace(*env, s, s.vars, s.trace, provenance@, depth as nat, pc, guard, w),
                ),
                st => final(code).at(w) == st,
            },
{
    flush(code, env.cache);
    let ghost c1 = *code;
    store_slots(code, env.arg_buf, env.arguments, env.arguments.len(), env.payload_type);
    let ghost c2 = *code;
    store_slots(code, env.var_buf, env.locals, env.locals.len(), env.payload_type);
    let ghost c3 = *code;
    store_slots(code, env.stack_base, env.stack, depth, env.payload_type);
    let ghost c4 = *code;
    opt_set_stack_top(code, env, depth);
    let ghost c5 = *code;
    let resume = set_pc(code, env, pc);
    let ghost c6 = *code;
    // The raw-i32 loop shape admits only unboxed scalars, so the values just
    // stored are already exact owners. Every other shape may alias borrowed
    // arguments or locals and must materialize an owner per slot.
    if !env.int32_loop {
        if let Err(e) = opt_own_stack_for_exit(code, env, depth, provenance) {
            return Err(e);
        }
    }
    let ghost c7 = *code;
    emit_opt_exit(code, env, env.abi.exit_deopt, Some(resume), guard);
    proof {
        assert forall|w: World|
            #![trigger code.at(w)]
            match old(code).at(w) {
                Status::Run(s) => exits_with(
                    code.at(w),
                    deopt_trace(*env, s, s.vars, s.trace, provenance@, depth as nat, pc, guard, w),
                ),
                st => code.at(w) == st,
            } by {
            let a1 = c1.at(w);
            let a2 = c2.at(w);
            let a3 = c3.at(w);
            let a4 = c4.at(w);
            let a5 = c5.at(w);
            let a6 = c6.at(w);
            let a7 = c7.at(w);
            if let Status::Run(s) = old(code).at(w) {
                let t = a6->Run_0;
                assert(t.vals[env.frame as int] == s.vals[env.frame as int]);
                assert(t.vals[env.stack_base as int] == s.vals[env.stack_base as int]);
                assert(t.vals[env.sret as int] == s.vals[env.sret as int]);
                same_own_flow(t.trace, *env, s, t, provenance@, depth as nat, w);
            }
        }
    }
    Ok(())
}

/// Goes on where `condition` holds, and deoptimizes otherwise. Answers the
/// block that deoptimizes, which later checks of the same instruction may use.
pub fn emit_opt_guard_branch(
    code: &mut Code,
    env: &OptEnv<'_>,
    provenance: &Vec<OptProvenance>,
    depth: usize,
    pc: u32,
    guard: u32,
    condition: usize,
) -> (r: Result<usize, CompileFailure>)
    requires
        env.wf(old(code).len()),
        depth <= env.stack@.len(),
        condition < old(code).len(),
    ensures
        kept(*old(code), *final(code)),
        r is Ok && env.typed(*old(code)) && old(code).integer(condition) ==> steady(*old(code), *final(code)),
        r is Ok <==> env.int32_loop || stack_ownable(*env, provenance@, depth as int),
        r matches Err(e) ==> e == own_failure(*env, provenance@, depth as int),
        r matches Ok(block) ==> block < final(code).len(),
        final(code).len() >= old(code).len(),
        r is Ok ==> forall|w: World|
            #![trigger final(code).at(w)]
            match old(code).at(w) {
                Status::Run(s) => if s.vals[condition as int] != 0 {
                    runs_on(final(code).at(w), s, old(code).len(), s.vars, s.trace)
                } else {
                    exits_with(
                        final(code).at(w),
                        deopt_trace(*env, s, s.vars, s.trace, provenance@, depth as nat, pc, guard, w),
                    )
                },
                st => final(code).at(w) == st,
            },
{
    let pass = code.new_block();
    let deopt = code.new_cold_block();
    code.branch(condition, pass, deopt);
    let _ = code.switch_to(deopt);
    let ghost failing = *code;
    if let Err(e) = emit_opt_deopt(code, env, provenance, depth, pc, guard) {
        return Err(e);
    }
    let ghost left = *code;
    let _ = code.switch_to(pass);
    proof {
        assert forall|w: World|
            #![trigger code.at(w)]
            match old(code).at(w) {
                Status::Run(s) => if s.vals[condition as int] != 0 {
                    runs_on(code.at(w), s, old(code).len(), s.vars, s.trace)
                } else {
                    exits_with(
                        code.at(w),
                        deopt_trace(*env, s, s.vars, s.trace, provenance@, depth as nat, pc, guard, w),
                    )
                },
                st => code.at(w) == st,
            } by {
            waits_for_known_blocks(old(code).insts@, w);
            let a = failing.at(w);
            let b = left.at(w);
            if let Status::Run(s) = old(code).at(w) {
                if let Status::Run(t) = a {
                    same_deopt(*env, s, t, provenance@, depth as nat, pc, guard, w);
                }
            }
        }
    }
    Ok(deopt)
}

/// What deoptimizing does depends on the frame's addresses, the variables and
/// what was observed before, and on nothing else.
pub proof fn same_deopt(
    env: OptEnv<'_>,
    s: State,
    t: State,
    provenance: Seq<OptProvenance>,
    depth: nat,
    pc: u32,
    guard: u32,
    w: World,
)
    requires
        t.vals[env.frame as int] == s.vals[env.frame as int],
        t.vals[env.stack_base as int] == s.vals[env.stack_base as int],
        t.vals[env.sret as int] == s.vals[env.sret as int],
        t.vals[env.arg_buf as int] == s.vals[env.arg_buf as int],
        t.vals[env.var_buf as int] == s.vals[env.var_buf as int],
        t.vars == s.vars,
        t.trace == s.trace,
    ensures
        deopt_trace(env, s, s.vars, s.trace, provenance, depth, pc, guard, w) == deopt_trace(
            env,
            t,
            t.vars,
            t.trace,
            provenance,
            depth,
            pc,
            guard,
            w,
        ),
{
    let clean = flush_vars(s.vars, env.cache@, env.cache@.len());
    let spilled = spill(flush_trace(s.vars, s.trace, env.cache@, env.cache@.len()), env, s, clean, depth);
    let topped = top_store(spilled, *env.abi, s.vals[env.frame as int], s.vals[env.stack_base as int], depth as int);
    let at_pc = pc_store(topped, *env.abi, s.vals[env.frame as int], pc, w);
    same_own_flow(at_pc, env, s, t, provenance, depth, w);
}

/// What deoptimizing does depends on the state only through the frame's
/// addresses.
pub proof fn deopt_depends_on_frame(
    env: OptEnv<'_>,
    s: State,
    t: State,
    vars: Map<int, int>,
    trace: Seq<Event>,
    provenance: Seq<OptProvenance>,
    depth: nat,
    pc: u32,
    guard: u32,
    w: World,
)
    requires
        t.vals[env.frame as int] == s.vals[env.frame as int],
        t.vals[env.stack_base as int] == s.vals[env.stack_base as int],
        t.vals[env.sret as int] == s.vals[env.sret as int],
        t.vals[env.arg_buf as int] == s.vals[env.arg_buf as int],
        t.vals[env.var_buf as int] == s.vals[env.var_buf as int],
    ensures
        deopt_trace(env, s, vars, trace, provenance, depth, pc, guard, w) == deopt_trace(
            env,
            t,
            vars,
            trace,
            provenance,
            depth,
            pc,
            guard,
            w,
        ),
{
    let s1 = State { vars, trace, ..s };
    let t1 = State { vars, trace, ..t };
    same_deopt(env, s1, t1, provenance, depth, pc, guard, w);
    same_frame(env, s, s1, vars, trace, provenance, depth, pc, guard, w);
    same_frame(env, t, t1, vars, trace, provenance, depth, pc, guard, w);
}

proof fn same_frame(
    env: OptEnv<'_>,
    s: State,
    t: State,
    vars: Map<int, int>,
    trace: Seq<Event>,
    provenance: Seq<OptProvenance>,
    depth: nat,
    pc: u32,
    guard: u32,
    w: World,
)
    requires
        t.vals == s.vals,
    ensures
        deopt_trace(env, s, vars, trace, provenance, depth, pc, guard, w) == deopt_trace(
            env,
            t,
            vars,
            trace,
            provenance,
            depth,
            pc,
            guard,
            w,
        ),
{
    let frame = s.vals[env.frame as int];
    let clean = flush_vars(vars, env.cache@, env.cache@.len());
    let spilled = spill(flush_trace(vars, trace, env.cache@, env.cache@.len()), env, s, clean, depth);
    let topped = top_store(spilled, *env.abi, frame, s.vals[env.stack_base as int], depth as int);
    let at_pc = pc_store(topped, *env.abi, frame, pc, w);
    same_own_flow(at_pc, env, s, t, provenance, depth, w);
}

/// What was observed first stays as it is.
pub open spec fn extends(before: Seq<Event>, after: Seq<Event>) -> bool {
    before.len() <= after.len() && forall|k: int| 0 <= k < before.len() ==> #[trigger] after[k] == before[k]
}

/// A tagged value was written to a slot of a buffer.
pub open spec fn slot_written(trace: Seq<Event>, base: int, index: int, payload: int, tag: int) -> bool {
    exists|k: int|
        0 <= k && k + 1 < trace.len() && #[trigger] trace[k] == (Event::Store {
            ty: Ty::I64,
            address: wrap(Ty::I64, base + index * 16),
            value: payload,
        }) && trace[k + 1] == (Event::Store { ty: Ty::I64, address: wrap(Ty::I64, base + index * 16 + 8), value: tag })
}

/// Every one of the first `n` slots was written to its place in a buffer.
pub open spec fn slots_written(trace: Seq<Event>, base: int, vars: Map<int, int>, slots: Seq<OptVars>, n: int) -> bool {
    forall|i: int|
        0 <= i < n ==> slot_written(
            trace,
            base,
            i,
            vars[(#[trigger] slots[i]).payload as int],
            vars[slots[i].tag as int],
        )
}

proof fn written_stays_written(a: Seq<Event>, b: Seq<Event>, base: int, vars: Map<int, int>, slots: Seq<OptVars>, n: int)
    requires
        extends(a, b),
        slots_written(a, base, vars, slots, n),
    ensures
        slots_written(b, base, vars, slots, n),
{
    assert forall|i: int| 0 <= i < n implies slot_written(
        b,
        base,
        i,
        vars[(#[trigger] slots[i]).payload as int],
        vars[slots[i].tag as int],
    ) by {
        let payload = vars[slots[i].payload as int];
        let tag = vars[slots[i].tag as int];
        assert(slot_written(a, base, i, payload, tag));
        let k = choose|k: int|
            0 <= k && k + 1 < a.len() && #[trigger] a[k] == (Event::Store {
                ty: Ty::I64,
                address: wrap(Ty::I64, base + i * 16),
                value: payload,
            }) && a[k + 1] == (Event::Store { ty: Ty::I64, address: wrap(Ty::I64, base + i * 16 + 8), value: tag });
        assert(b[k] == a[k]);
        assert(b[k + 1] == a[k + 1]);
    }
}

proof fn stores_write_slots(trace: Seq<Event>, base: int, vars: Map<int, int>, slots: Seq<OptVars>, n: nat)
    ensures
        extends(trace, slot_stores(trace, base, vars, slots, n)),
        slots_written(slot_stores(trace, base, vars, slots, n), base, vars, slots, n as int),
    decreases n,
{
    if n > 0 {
        let before = slot_stores(trace, base, vars, slots, (n - 1) as nat);
        let after = slot_stores(trace, base, vars, slots, n);
        stores_write_slots(trace, base, vars, slots, (n - 1) as nat);
        assert(extends(before, after));
        written_stays_written(before, after, base, vars, slots, n - 1);
        assert(after[before.len() as int] == (Event::Store {
            ty: Ty::I64,
            address: wrap(Ty::I64, base + (n - 1) * 16),
            value: vars[slots[n - 1].payload as int],
        }));
        assert(slot_written(after, base, n - 1, vars[slots[n - 1].payload as int], vars[slots[n - 1].tag as int]));
    }
}

proof fn flushing_extends(vars: Map<int, int>, trace: Seq<Event>, cache: Seq<CachedVars>, k: nat)
    ensures
        extends(trace, flush_trace(vars, trace, cache, k)),
    decreases k,
{
    if k > 0 {
        flushing_extends(vars, trace, cache, (k - 1) as nat);
    }
}

proof fn owning_extends(trace: Seq<Event>, env: OptEnv<'_>, s: State, provenance: Seq<OptProvenance>, k: nat, w: World)
    ensures
        extends(trace, own_flow(trace, env, s, provenance, k, w).trace),
    decreases k,
{
    if k > 0 {
        owning_extends(trace, env, s, provenance, (k - 1) as nat, w);
        let before = own_flow(trace, env, s, provenance, (k - 1) as nat, w);
        if before.running {
            assert(extends(before.trace, own_step(before.trace, env, s, provenance[k - 1], k - 1, w).trace));
        }
    }
}

/// A deoptimization keeps what was observed, and writes every argument, local and
/// live operand to its place in the frame before it leaves, ahead of the owners
/// that are then made of borrowed operands: the interpreter can execute the
/// instruction again on the frame as it stood before it.
pub proof fn deopts_spill_the_frame(
    env: OptEnv<'_>,
    s: State,
    vars: Map<int, int>,
    trace: Seq<Event>,
    provenance: Seq<OptProvenance>,
    depth: nat,
    pc: u32,
    guard: u32,
    w: World,
)
    requires
        depth <= env.stack@.len(),
    ensures
        ({
            let after = deopt_trace(env, s, vars, trace, provenance, depth, pc, guard, w);
            let clean = flush_vars(vars, env.cache@, env.cache@.len());
            &&& extends(trace, after)
            &&& slots_written(after, s.vals[env.arg_buf as int], clean, env.arguments@, env.arguments@.len() as int)
            &&& slots_written(after, s.vals[env.var_buf as int], clean, env.locals@, env.locals@.len() as int)
            &&& slots_written(after, s.vals[env.stack_base as int], clean, env.stack@, depth as int)
        }),
{
    let frame = s.vals[env.frame as int];
    let clean = flush_vars(vars, env.cache@, env.cache@.len());
    let flushed = flush_trace(vars, trace, env.cache@, env.cache@.len());
    let t1 = slot_stores(flushed, s.vals[env.arg_buf as int], clean, env.arguments@, env.arguments@.len());
    let t2 = slot_stores(t1, s.vals[env.var_buf as int], clean, env.locals@, env.locals@.len());
    let t3 = slot_stores(t2, s.vals[env.stack_base as int], clean, env.stack@, depth);
    let topped = top_store(t3, *env.abi, frame, s.vals[env.stack_base as int], depth as int);
    let at_pc = pc_store(topped, *env.abi, frame, pc, w);
    let after = deopt_trace(env, s, vars, trace, provenance, depth, pc, guard, w);
    flushing_extends(vars, trace, env.cache@, env.cache@.len());
    stores_write_slots(flushed, s.vals[env.arg_buf as int], clean, env.arguments@, env.arguments@.len());
    stores_write_slots(t1, s.vals[env.var_buf as int], clean, env.locals@, env.locals@.len());
    stores_write_slots(t2, s.vals[env.stack_base as int], clean, env.stack@, depth);
    owning_extends(at_pc, env, s, provenance, depth, w);
    assert(extends(t3, at_pc));
    let owned = own_flow(at_pc, env, s, provenance, depth, w);
    if env.int32_loop {
        assert(extends(at_pc, after));
    } else {
        assert(extends(owned.trace, after));
        assert(extends(at_pc, after));
    }
    assert(extends(t3, after));
    assert(extends(t2, after));
    assert(extends(t1, after));
    assert(extends(trace, after));
    written_stays_written(t1, after, s.vals[env.arg_buf as int], clean, env.arguments@, env.arguments@.len() as int);
    written_stays_written(t2, after, s.vals[env.var_buf as int], clean, env.locals@, env.locals@.len() as int);
    written_stays_written(t3, after, s.vals[env.stack_base as int], clean, env.stack@, depth as int);
}

} // verus!
