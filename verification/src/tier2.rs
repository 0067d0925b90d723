//! The optimizing tier's compilation: what it admits, how it proceeds, and what
//! it gives up when a step fails.
use crate::control::CompileFailure;
use crate::diagnostics::Tier2Diagnostics;
use crate::ir::GuardSite;
use crate::ir::OptimizedIr;
use crate::names::is_call_site;
use crate::names::spec_is_call_site;
use crate::runtime::first_at;
use crate::runtime::first_at_is;
use crate::runtime::first_at_none;
use crate::runtime::BoundedSignature;
use crate::runtime::CallSpecializationKey;
use crate::runtime::FeedbackSnapshot;
use crate::runtime::FunctionKey;
use crate::runtime::ObservedType;
use crate::runtime::SidePathProfile;
use crate::runtime::VerifiedFunction;
use crate::specialization::NumericSpecialization;
use crate::specialized_calls::DirectCallSite;
use crate::stages::Tier2CompileStage;
use vstd::prelude::*;

verus! {

broadcast use vstd::std_specs::btree::group_btree_axioms;

#[derive(Clone, Copy, Debug, PartialEq, Eq, Structural)]
pub enum Tier {
    Baseline,
    Optimizing,
}

/// A callee whose bytecode may be inlined; `parent` is the position of the
/// callee that it is inlined into.
#[derive(Clone, Copy, Debug, PartialEq, Eq, Structural)]
pub struct FrameInlineTarget {
    pub pc: u32,
    pub callee: FunctionKey,
    pub parent: Option<usize>,
    /// Its bytecode passed verification.
    pub verified: bool,
}

/// Compiled code that the call at `pc` may enter.
#[derive(Debug)]
pub struct DirectCallTarget {
    pub pc: u32,
    pub call: CallSpecializationKey,
    pub entry: u64,
    /// The publication that keeps the entry alive.
    pub publication: u64,
}

#[derive(Debug)]
pub struct CompileRequest {
    pub key: FunctionKey,
    pub runtime_id: u64,
    pub tier: Tier,
    pub feedback_epoch: u64,
    pub snapshot: VerifiedFunction,
    pub feedback: FeedbackSnapshot,
    /// The function has a value of a stable type.
    pub has_stable_value: bool,
    pub side_path_profile: Option<SidePathProfile>,
    /// Feedback holds the observation that the side path is made for.
    pub side_path_observed: bool,
    pub direct_call_targets: Vec<DirectCallTarget>,
    pub frame_inline_targets: Vec<FrameInlineTarget>,
}

/// There are calls, and each always had one callee and signature.
pub open spec fn stable_compiled_call(function: VerifiedFunction, key: FunctionKey, feedback: FeedbackSnapshot) -> bool {
    &&& exists|i: int|
        0 <= i < function.instructions@.len() && spec_is_call_site((#[trigger] function.instructions@[i]).name@)
    &&& forall|i: int|
        0 <= i < function.instructions@.len() && spec_is_call_site((#[trigger] function.instructions@[i]).name@)
            ==> feedback.spec_call_at(key, function.instructions@[i].pc) is Some
}

pub fn has_stable_compiled_call(request: &CompileRequest) -> (r: bool)
    ensures
        r == stable_compiled_call(request.snapshot, request.key, request.feedback),
{
    let mut found = false;
    let mut i: usize = 0;
    while i < request.snapshot.instructions.len()
        invariant
            i <= request.snapshot.instructions@.len(),
            found == (exists|k: int|
                0 <= k < i && spec_is_call_site((#[trigger] request.snapshot.instructions@[k]).name@)),
            forall|k: int|
                0 <= k < i && spec_is_call_site((#[trigger] request.snapshot.instructions@[k]).name@)
                    ==> request.feedback.spec_call_at(request.key, request.snapshot.instructions@[k].pc) is Some,
        decreases request.snapshot.instructions@.len() - i,
    {
        let instruction = &request.snapshot.instructions[i];
        assert(instruction == request.snapshot.instructions@[i as int]);
        if is_call_site(instruction.name.as_str()) {
            found = true;
            if request.feedback.call_specialization_at(request.key, instruction.pc).is_none() {
                return false;
            }
        }
        i = i + 1;
    }
    found
}

/// Something of the function is worth specializing for.
pub open spec fn has_grounds(request: CompileRequest) -> bool {
    ||| request.side_path_profile is Some
    ||| request.has_stable_value
    ||| request.feedback.spec_signature(request.key) is Some
    ||| stable_compiled_call(request.snapshot, request.key, request.feedback)
    ||| request.frame_inline_targets@.len() > 0
}

pub open spec fn is_admitted(request: CompileRequest) -> bool {
    request.tier == Tier::Optimizing && has_grounds(request)
}

pub fn admits(request: &CompileRequest) -> (r: bool)
    ensures
        r == is_admitted(*request),
{
    matches!(request.tier, Tier::Optimizing) && (request.side_path_profile.is_some() || request.has_stable_value
        || request.feedback.bounded_specialization(request.key).is_some() || has_stable_compiled_call(request)
        || request.frame_inline_targets.len() > 0)
}

/// A side path is for this function and this feedback, and for a number.
pub open spec fn side_path_fits(request: CompileRequest, profile: SidePathProfile) -> bool {
    &&& profile.function == request.key
    &&& profile.feedback_epoch == request.feedback_epoch
    &&& request.side_path_observed
    &&& profile.observed == ObservedType::Int32 || profile.observed == ObservedType::Float64
}

pub fn validate_side_path_profile(request: &CompileRequest, profile: SidePathProfile) -> (r: Result<(), CompileFailure>)
    ensures
        r == if side_path_fits(*request, profile) {
            Ok::<(), CompileFailure>(())
        } else {
            Err::<(), CompileFailure>(CompileFailure::InvalidArtifact)
        },
{
    if profile.function != request.key || profile.feedback_epoch != request.feedback_epoch || !request.side_path_observed
        || !matches!(profile.observed, ObservedType::Int32 | ObservedType::Float64) {
        return Err(CompileFailure::InvalidArtifact);
    }
    Ok(())
}

/// The epoch that code is made for: the later of the request's and the compiler's.
pub fn compile_epoch(request_epoch: u64, compiler_epoch: u64) -> (r: u64)
    ensures
        r == if request_epoch >= compiler_epoch {
            request_epoch
        } else {
            compiler_epoch
        },
{
    if request_epoch >= compiler_epoch {
        request_epoch
    } else {
        compiler_epoch
    }
}

/// Parents come before their children.
pub open spec fn inline_forest(targets: Seq<FrameInlineTarget>) -> bool {
    forall|i: int| 0 <= i < targets.len() ==> ((#[trigger] targets[i]).parent matches Some(p) ==> p < i)
}

/// A callee is retained where it and every callee around it passed verification.
pub open spec fn retained(targets: Seq<FrameInlineTarget>, i: int) -> bool
    decreases i,
{
    targets[i].verified && match targets[i].parent {
        None => true,
        Some(p) => if 0 <= p < i {
            retained(targets, p as int)
        } else {
            false
        },
    }
}

/// Which inlining candidates are retained; a side path inlines nothing.
pub fn retain_inline_callees(request: &CompileRequest) -> (r: Vec<bool>)
    requires
        inline_forest(request.frame_inline_targets@),
    ensures
        r@.len() == request.frame_inline_targets@.len(),
        forall|i: int|
            0 <= i < r@.len() ==> #[trigger] r@[i] == (request.side_path_profile is None && retained(
                request.frame_inline_targets@,
                i,
            )),
{
    let targets = &request.frame_inline_targets;
    let mut kept: Vec<bool> = Vec::new();
    let mut i: usize = 0;
    while i < targets.len()
        invariant
            i <= targets@.len(),
            kept@.len() == i,
            targets@ == request.frame_inline_targets@,
            inline_forest(targets@),
            forall|k: int|
                0 <= k < i ==> #[trigger] kept@[k] == (request.side_path_profile is None && retained(targets@, k)),
        decreases targets@.len() - i,
    {
        let target = targets[i];
        assert(target == targets@[i as int]);
        let keep = request.side_path_profile.is_none() && target.verified && match target.parent {
            None => true,
            Some(parent) => kept[parent],
        };
        kept.push(keep);
        i = i + 1;
    }
    kept
}

pub open spec fn later_key(a: FunctionKey, b: FunctionKey) -> bool {
    crate::diagnostics::key_before(a, b)
}

pub open spec fn strictly_sorted(keys: Seq<FunctionKey>) -> bool {
    forall|i: int, j: int| 0 <= i < j < keys.len() ==> later_key(#[trigger] keys[i], #[trigger] keys[j])
}

/// The functions whose bytecode is inlined, each once and in order.
pub fn frame_inline_dependencies(targets: &Vec<FrameInlineTarget>, kept: &Vec<bool>) -> (r: Vec<FunctionKey>)
    requires
        kept@.len() == targets@.len(),
    ensures
        strictly_sorted(r@),
        forall|key: FunctionKey| #[trigger]
            r@.contains(key) <==> exists|i: int| 0 <= i < targets@.len() && kept@[i] && (#[trigger] targets@[i]).callee == key,
{
    let mut keys: Vec<FunctionKey> = Vec::new();
    let mut i: usize = 0;
    while i < targets.len()
        invariant
            i <= targets@.len(),
            kept@.len() == targets@.len(),
            strictly_sorted(keys@),
            forall|key: FunctionKey| #[trigger]
                keys@.contains(key) <==> exists|k: int| 0 <= k < i && kept@[k] && (#[trigger] targets@[k]).callee == key,
        decreases targets@.len() - i,
    {
        let ghost before = keys@;
        if kept[i] {
            add_key(&mut keys, targets[i].callee);
        }
        proof {
            assert forall|key: FunctionKey| #[trigger]
                keys@.contains(key) <==> exists|k: int|
                    0 <= k < i + 1 && kept@[k] && (#[trigger] targets@[k]).callee == key by {
                if before.contains(key) {
                    let k = choose|k: int| 0 <= k < i && kept@[k] && (#[trigger] targets@[k]).callee == key;
                    assert(targets@[k].callee == key);
                }
                if kept@[i as int] && targets@[i as int].callee == key {
                    assert(keys@.contains(key));
                }
            }
        }
        i = i + 1;
    }
    keys
}

fn add_key(keys: &mut Vec<FunctionKey>, key: FunctionKey)
    requires
        strictly_sorted(old(keys)@),
    ensures
        strictly_sorted(final(keys)@),
        forall|k: FunctionKey| #[trigger] final(keys)@.contains(k) <==> old(keys)@.contains(k) || k == key,
{
    let ghost before = keys@;
    let mut at: usize = 0;
    while at < keys.len() && (keys[at].id < key.id || keys[at].id == key.id && keys[at].generation < key.generation)
        invariant
            keys@ == before,
            at <= keys@.len(),
            forall|k: int| 0 <= k < at ==> later_key(#[trigger] keys@[k], key),
        decreases keys@.len() - at,
    {
        at = at + 1;
    }
    if at < keys.len() && keys[at] == key {
        assert(before.contains(key));
        return ;
    }
    keys.insert(at, key);
    proof {
        assert forall|k: FunctionKey| #[trigger] keys@.contains(k) <==> before.contains(k) || k == key by {
            crate::diagnostics::insert_contains(before, at as int, key, k);
        }
    }
}

/// The target that the call at `pc` may enter.
pub open spec fn target_at(targets: Seq<DirectCallTarget>, pc: u32) -> Option<int> {
    first_at(|i: int| targets[i].pc == pc, targets.len())
}

fn find_target(targets: &Vec<DirectCallTarget>, pc: u32) -> (r: Option<usize>)
    ensures
        match r {
            Some(i) => target_at(targets@, pc) == Some(i as int) && i < targets@.len(),
            None => target_at(targets@, pc) is None,
        },
{
    let ghost f = |i: int| targets@[i].pc == pc;
    let mut i: usize = 0;
    while i < targets.len()
        invariant
            i <= targets@.len(),
            f == (|i: int| targets@[i].pc == pc),
            forall|k: int| 0 <= k < i ==> !#[trigger] f(k),
        decreases targets@.len() - i,
    {
        if targets[i].pc == pc {
            proof {
                first_at_is(f, targets@.len(), i as int);
            }
            return Some(i);
        }
        i = i + 1;
    }
    proof {
        first_at_none(f, targets@.len());
    }
    None
}

/// The positions of the targets that the function's instructions may enter, in
/// the order of the instructions.
pub open spec fn linked(request: CompileRequest, n: nat) -> Seq<int>
    decreases n,
{
    if n == 0 {
        Seq::empty()
    } else {
        let before = linked(request, (n - 1) as nat);
        match target_at(request.direct_call_targets@, request.snapshot.instructions@[n - 1].pc) {
            Some(t) => before.push(t),
            None => before,
        }
    }
}

/// A direct call, and the publication that it depends on.
#[derive(Debug)]
pub struct LinkedCall {
    pub pc: u32,
    pub site: DirectCallSite,
    pub publication: u64,
}

pub open spec fn links(call: LinkedCall, target: DirectCallTarget) -> bool {
    &&& call.pc == target.pc
    &&& call.site.call@ == target.call@
    &&& call.site.entry == target.entry
    &&& call.publication == target.publication
}

/// The direct calls of a function.
pub fn link_direct_calls(request: &CompileRequest) -> (r: Vec<LinkedCall>)
    ensures
        ({
            let positions = linked(*request, request.snapshot.instructions@.len());
            &&& r@.len() == positions.len()
            &&& forall|k: int|
                0 <= k < r@.len() ==> links(#[trigger] r@[k], request.direct_call_targets@[positions[k]])
        }),
{
    let mut calls: Vec<LinkedCall> = Vec::new();
    let mut i: usize = 0;
    while i < request.snapshot.instructions.len()
        invariant
            i <= request.snapshot.instructions@.len(),
            calls@.len() == linked(*request, i as nat).len(),
            forall|k: int|
                0 <= k < calls@.len() ==> links(
                    #[trigger] calls@[k],
                    request.direct_call_targets@[linked(*request, i as nat)[k]],
                ),
        decreases request.snapshot.instructions@.len() - i,
    {
        let pc = request.snapshot.instructions[i].pc;
        if let Some(t) = find_target(&request.direct_call_targets, pc) {
            proof {
                crate::runtime::first_at_meaning(
                    |i: int| request.direct_call_targets@[i].pc == pc,
                    request.direct_call_targets@.len(),
                );
            }
            let target = &request.direct_call_targets[t];
            calls.push(
                LinkedCall {
                    pc: target.pc,
                    site: DirectCallSite { call: target.call.duplicate(), entry: target.entry },
                    publication: target.publication,
                },
            );
        }
        i = i + 1;
    }
    calls
}

/// The callees of the specialized calls among the first `n` instructions.
pub open spec fn called_functions(function: VerifiedFunction, specialization: NumericSpecialization, n: nat) -> Seq<FunctionKey>
    decreases n,
{
    if n == 0 {
        Seq::empty()
    } else {
        let before = called_functions(function, specialization, (n - 1) as nat);
        let pc = function.instructions@[n - 1].pc;
        if specialization.calls@.contains_key(pc) {
            before.push(specialization.calls@[pc].callee)
        } else {
            before
        }
    }
}

/// What the code depends on: the function, its specialized callees, and what
/// was inlined into it.
pub fn artifact_dependencies(
    key: FunctionKey,
    function: &VerifiedFunction,
    specialization: &NumericSpecialization,
    inlined: &Vec<FunctionKey>,
    ir: &OptimizedIr,
) -> (r: Vec<FunctionKey>)
    ensures
        r@ == seq![key] + called_functions(*function, *specialization, function.instructions@.len()) + (
        if ir.frame_inlined_calls != 0 {
            inlined@
        } else {
            Seq::empty()
        }),
{
    let mut keys: Vec<FunctionKey> = Vec::new();
    keys.push(key);
    let mut i: usize = 0;
    while i < function.instructions.len()
        invariant
            i <= function.instructions@.len(),
            keys@ == seq![key] + called_functions(*function, *specialization, i as nat),
        decreases function.instructions@.len() - i,
    {
        let ghost before = keys@;
        let pc = function.instructions[i].pc;
        if let Some(call) = specialization.calls.get(&pc) {
            keys.push(call.callee);
        }
        assert(keys@ =~= seq![key] + called_functions(*function, *specialization, (i + 1) as nat));
        i = i + 1;
    }
    let ghost called = keys@;
    if ir.frame_inlined_calls != 0 {
        let mut k: usize = 0;
        while k < inlined.len()
            invariant
                k <= inlined@.len(),
                keys@ == called + inlined@.take(k as int),
            decreases inlined@.len() - k,
        {
            keys.push(inlined[k]);
            assert(keys@ =~= called + inlined@.take(k + 1));
            k = k + 1;
        }
        assert(inlined@.take(inlined@.len() as int) =~= inlined@);
    }
    assert(ir.frame_inlined_calls == 0 ==> keys@ =~= called + Seq::<FunctionKey>::empty());
    keys
}

/// What is published with optimized code.
#[derive(Debug)]
pub struct OptimizedArtifactMetadata {
    pub feedback_epoch: u64,
    pub deopt_sites: Vec<GuardSite>,
    pub boxes_elided: u64,
    pub cse_eliminated: u64,
    pub dead_nodes_eliminated: u64,
    pub inlined_calls: u64,
    pub side_path: Option<SidePathProfile>,
    pub direct_signature: Option<BoundedSignature>,
}

pub open spec fn saturating_sum(a: u64, b: u64) -> u64 {
    if a + b <= u64::MAX {
        (a + b) as u64
    } else {
        u64::MAX
    }
}

pub fn metadata_from_ir(ir: &OptimizedIr) -> (r: OptimizedArtifactMetadata)
    ensures
        r.feedback_epoch == ir.feedback_epoch,
        r.deopt_sites@ == ir.guard_maps@,
        r.boxes_elided == ir.boxes_elided,
        r.cse_eliminated == ir.cse_eliminated,
        r.dead_nodes_eliminated == ir.dead_nodes_eliminated,
        r.inlined_calls == saturating_sum(ir.inlined_calls, ir.frame_inlined_calls),
        r.side_path is None,
        r.direct_signature is None,
{
    let mut sites: Vec<GuardSite> = Vec::new();
    let mut i: usize = 0;
    while i < ir.guard_maps.len()
        invariant
            i <= ir.guard_maps@.len(),
            sites@ == ir.guard_maps@.take(i as int),
        decreases ir.guard_maps@.len() - i,
    {
        sites.push(ir.guard_maps[i]);
        i = i + 1;
    }
    assert(ir.guard_maps@.take(ir.guard_maps@.len() as int) =~= ir.guard_maps@);
    OptimizedArtifactMetadata {
        feedback_epoch: ir.feedback_epoch,
        deopt_sites: sites,
        boxes_elided: ir.boxes_elided,
        cse_eliminated: ir.cse_eliminated,
        dead_nodes_eliminated: ir.dead_nodes_eliminated,
        inlined_calls: ir.inlined_calls.saturating_add(ir.frame_inlined_calls),
        side_path: None,
        direct_signature: None,
    }
}

/// The largest number that can be held stands for every larger one.
pub open spec fn clamped(x: int) -> int {
    if x <= usize::MAX {
        x
    } else {
        usize::MAX as int
    }
}

pub(crate) fn saturating_product(a: usize, b: usize) -> (r: usize)
    ensures
        r == clamped(a * b),
{
    match a.checked_mul(b) {
        Some(product) => product,
        None => usize::MAX,
    }
}

/// The storage that a graph and its metadata take: a value costs a byte for
/// its class and a byte for its mode.
pub fn ir_budget_bytes(ir: &OptimizedIr, metadata: &OptimizedArtifactMetadata, map_bytes: usize) -> (r: usize)
    ensures
        r == clamped(
            clamped(ir.allocated_bytes + clamped((ir.values@.len() * 2) as int)) + clamped(
                (metadata.deopt_sites@.len() * map_bytes) as int,
            ),
        ),
{
    let values = saturating_product(ir.values.len(), 2);
    let sites = saturating_product(metadata.deopt_sites.len(), map_bytes);
    ir.allocated_bytes.saturating_add(values).saturating_add(sites)
}

/// What the compilation waits for.
#[derive(Clone, Copy, Debug, PartialEq, Eq, Structural)]
pub enum CompilePhase {
    AdmissionCheck,
    InitialTranslate,
    FrameRetryCheck,
    FrameRetry,
    Budget,
    BudgetRetryCheck,
    BudgetRetryTranslate,
    BudgetRetry,
    SidePath,
    InitialLower,
    LowerRetryCheck,
    LowerRetryTranslate,
    LowerRetryBudget,
    LowerRetry,
    DirectLower,
    FinalCheck,
    Complete,
    Failed(CompileFailure),
}

/// What is to be done next.
#[derive(Clone, Copy, Debug, PartialEq, Eq, Structural)]
pub enum CompileAction {
    CheckControl,
    /// With the retained scalar and bytecode candidates, or without.
    Translate { inline: bool, frame_inline: bool },
    CheckBudget,
    ValidateSidePath,
    Lower,
    LowerDirect,
    Publish { direct: bool },
    Abort(CompileFailure),
}

/// How an action ended.
#[derive(Clone, Copy, Debug, PartialEq, Eq, Structural)]
pub enum CompileOutcome {
    Done,
    /// A graph, and whether it holds inlined scalar regions and inlined bytecode.
    Translated { inlined: bool, frame_inlined: bool },
    Refused(CompileFailure),
}

/// A compilation under way.
#[derive(Clone, Copy, Debug, PartialEq, Eq, Structural)]
pub struct Compilation {
    pub controlled: bool,
    pub admitted: bool,
    pub side_path: bool,
    /// Bytecode candidates were retained.
    pub frame_callees: bool,
    pub direct_signature: bool,
    pub inlined: bool,
    pub frame_inlined: bool,
    pub direct_code: bool,
    pub phase: CompilePhase,
}

/// A stage to be recorded.
#[derive(Clone, Copy, Debug, PartialEq, Eq, Structural)]
pub struct StageNote {
    pub stage: Tier2CompileStage,
    pub failure: Option<CompileFailure>,
    /// Recorded even over a failure inside the stage.
    pub forced: bool,
}

pub open spec fn passed(stage: Tier2CompileStage) -> StageNote {
    StageNote { stage, failure: None, forced: false }
}

pub open spec fn failed(stage: Tier2CompileStage, failure: CompileFailure) -> StageNote {
    StageNote { stage, failure: Some(failure), forced: false }
}

impl Compilation {
    pub open spec fn at(self, phase: CompilePhase) -> Compilation {
        Compilation { phase, ..self }
    }

    /// Where an admitted compilation starts.
    pub open spec fn after_admission(self) -> Compilation {
        if self.admitted {
            self.at(CompilePhase::InitialTranslate)
        } else {
            self.at(CompilePhase::Failed(CompileFailure::InvalidArtifact))
        }
    }

    pub open spec fn admission_notes(self) -> Seq<StageNote> {
        if self.admitted {
            seq![passed(Tier2CompileStage::FromFeedback), passed(Tier2CompileStage::RetainInlineCallees)]
        } else {
            seq![
                StageNote {
                    stage: Tier2CompileStage::Admission,
                    failure: Some(CompileFailure::InvalidArtifact),
                    forced: true,
                },
            ]
        }
    }

    /// Behind the budget: the side path, if there is one.
    pub open spec fn after_budget(self) -> Compilation {
        if self.side_path {
            self.at(CompilePhase::SidePath)
        } else {
            self.at(CompilePhase::InitialLower)
        }
    }

    pub open spec fn budget_notes(self) -> Seq<StageNote> {
        if self.side_path {
            Seq::empty()
        } else {
            seq![passed(Tier2CompileStage::DirectDependencies)]
        }
    }

    /// Behind the first graph: the budget, where there is one.
    pub open spec fn after_translation(self, inlined: bool, frame_inlined: bool) -> Compilation {
        let known = Compilation { inlined, frame_inlined, ..self };
        if self.controlled {
            known.at(CompilePhase::Budget)
        } else {
            known.after_budget()
        }
    }

    pub open spec fn translation_notes(self) -> Seq<StageNote> {
        if self.controlled {
            Seq::empty()
        } else {
            self.budget_notes()
        }
    }

    /// Behind the machine code: the direct entry, where the function has a signature.
    pub open spec fn after_lowering(self) -> Compilation {
        if self.direct_signature && !self.side_path {
            self.at(CompilePhase::DirectLower)
        } else {
            self.after_direct(false)
        }
    }

    pub open spec fn lowering_notes(self) -> Seq<StageNote> {
        if self.direct_signature && !self.side_path {
            Seq::empty()
        } else {
            self.direct_notes(false)
        }
    }

    pub open spec fn after_direct(self, direct_code: bool) -> Compilation {
        let known = Compilation { direct_code, ..self };
        if self.controlled {
            known.at(CompilePhase::FinalCheck)
        } else {
            known.at(CompilePhase::Complete)
        }
    }

    pub open spec fn direct_notes(self, direct_code: bool) -> Seq<StageNote> {
        if self.controlled {
            Seq::empty()
        } else {
            publication_notes(direct_code)
        }
    }

    /// The graph of a failed lowering had something inlined that may be to blame.
    pub open spec fn may_retry_lowering(self, failure: CompileFailure) -> bool {
        if self.controlled {
            ||| failure == CompileFailure::ResourceLimit && (self.inlined || self.frame_inlined)
            ||| failure == CompileFailure::InvalidArtifact && self.frame_inlined
        } else {
            failure == CompileFailure::InvalidArtifact && self.frame_inlined
        }
    }
}

pub open spec fn publication_notes(direct_code: bool) -> Seq<StageNote> {
    if direct_code {
        seq![
            passed(Tier2CompileStage::ArtifactBind),
            passed(Tier2CompileStage::DirectMetadata),
            passed(Tier2CompileStage::Complete),
        ]
    } else {
        seq![passed(Tier2CompileStage::ArtifactBind), passed(Tier2CompileStage::Complete)]
    }
}

/// The stage under which the outcome of a phase is recorded.
pub open spec fn stage_of(phase: CompilePhase) -> Option<Tier2CompileStage> {
    match phase {
        CompilePhase::AdmissionCheck => Some(Tier2CompileStage::Admission),
        CompilePhase::InitialTranslate => Some(Tier2CompileStage::InitialTranslate),
        CompilePhase::FrameRetryCheck | CompilePhase::FrameRetry => Some(Tier2CompileStage::FrameTranslateRetry),
        CompilePhase::Budget | CompilePhase::BudgetRetryCheck | CompilePhase::BudgetRetry => Some(Tier2CompileStage::IrBudget),
        CompilePhase::SidePath => Some(Tier2CompileStage::SidePathValidation),
        CompilePhase::InitialLower => Some(Tier2CompileStage::InitialLower),
        CompilePhase::LowerRetryCheck | CompilePhase::LowerRetryTranslate => Some(
            Tier2CompileStage::InlineLowerRetryTranslate,
        ),
        CompilePhase::LowerRetryBudget => Some(Tier2CompileStage::InlineLowerRetryBudget),
        CompilePhase::LowerRetry => Some(Tier2CompileStage::InlineLowerRetry),
        CompilePhase::DirectLower | CompilePhase::FinalCheck => Some(Tier2CompileStage::DirectLower),
        _ => None,
    }
}

pub open spec fn stage_note(phase: CompilePhase, failure: Option<CompileFailure>) -> Seq<StageNote> {
    match stage_of(phase) {
        Some(stage) => seq![StageNote { stage, failure, forced: false }],
        None => Seq::empty(),
    }
}

/// Where a failed action leads, if not to the end: inlining is given up, and a
/// direct entry can be done without.
pub open spec fn recovers(c: Compilation, failure: CompileFailure) -> Option<Compilation> {
    match c.phase {
        CompilePhase::InitialTranslate => if failure == CompileFailure::InvalidArtifact && c.frame_callees {
            Some(
                c.at(
                    if c.controlled {
                        CompilePhase::FrameRetryCheck
                    } else {
                        CompilePhase::FrameRetry
                    },
                ),
            )
        } else {
            None
        },
        CompilePhase::Budget => if failure == CompileFailure::ResourceLimit && (c.inlined || c.frame_inlined) {
            Some(c.at(CompilePhase::BudgetRetryCheck))
        } else {
            None
        },
        CompilePhase::InitialLower => if c.may_retry_lowering(failure) {
            Some(
                c.at(
                    if c.controlled {
                        CompilePhase::LowerRetryCheck
                    } else {
                        CompilePhase::LowerRetryTranslate
                    },
                ),
            )
        } else {
            None
        },
        CompilePhase::DirectLower => Some(c.after_direct(false)),
        _ => None,
    }
}

/// The compilation after an action succeeded.
pub open spec fn proceeds(c: Compilation, inlined: bool, frame_inlined: bool) -> Compilation {
    match c.phase {
        CompilePhase::AdmissionCheck => c.after_admission(),
        CompilePhase::InitialTranslate | CompilePhase::FrameRetry => c.after_translation(inlined, frame_inlined),
        CompilePhase::FrameRetryCheck => c.at(CompilePhase::FrameRetry),
        CompilePhase::Budget | CompilePhase::BudgetRetry => c.after_budget(),
        CompilePhase::BudgetRetryCheck => c.at(CompilePhase::BudgetRetryTranslate),
        CompilePhase::BudgetRetryTranslate => (Compilation { inlined, frame_inlined, ..c }).at(CompilePhase::BudgetRetry),
        CompilePhase::SidePath => c.at(CompilePhase::InitialLower),
        CompilePhase::InitialLower | CompilePhase::LowerRetry => c.after_lowering(),
        CompilePhase::LowerRetryCheck => c.at(CompilePhase::LowerRetryTranslate),
        CompilePhase::LowerRetryTranslate => (Compilation { inlined, frame_inlined, ..c }).at(
            if c.controlled {
                CompilePhase::LowerRetryBudget
            } else {
                CompilePhase::LowerRetry
            },
        ),
        CompilePhase::LowerRetryBudget => c.at(CompilePhase::LowerRetry),
        CompilePhase::DirectLower => c.after_direct(true),
        CompilePhase::FinalCheck => c.at(CompilePhase::Complete),
        CompilePhase::Complete => c,
        CompilePhase::Failed(_) => c,
    }
}

/// What is recorded behind the stage of an action that succeeded.
pub open spec fn further_notes(c: Compilation) -> Seq<StageNote> {
    match c.phase {
        CompilePhase::AdmissionCheck => c.admission_notes(),
        CompilePhase::InitialTranslate | CompilePhase::FrameRetry => c.translation_notes(),
        CompilePhase::Budget | CompilePhase::BudgetRetry => c.budget_notes(),
        CompilePhase::SidePath => seq![passed(Tier2CompileStage::DirectDependencies)],
        CompilePhase::InitialLower | CompilePhase::LowerRetry => c.lowering_notes(),
        CompilePhase::DirectLower => c.direct_notes(true),
        CompilePhase::FinalCheck => publication_notes(c.direct_code),
        _ => Seq::empty(),
    }
}

/// The compilation after an action.
pub open spec fn next(c: Compilation, outcome: CompileOutcome) -> Compilation {
    match outcome {
        CompileOutcome::Refused(failure) => match recovers(c, failure) {
            Some(after) => after,
            None => match c.phase {
                CompilePhase::Complete | CompilePhase::Failed(_) => c,
                _ => c.at(CompilePhase::Failed(failure)),
            },
        },
        CompileOutcome::Done => proceeds(c, c.inlined, c.frame_inlined),
        CompileOutcome::Translated { inlined, frame_inlined } => proceeds(c, inlined, frame_inlined),
    }
}

/// What is recorded after an action. A retry is recorded under its own stages,
/// and the translation behind an exceeded budget under none.
pub open spec fn notes(c: Compilation, outcome: CompileOutcome) -> Seq<StageNote> {
    match outcome {
        CompileOutcome::Refused(failure) => if c.phase == CompilePhase::DirectLower {
            stage_note(c.phase, Some(failure)) + c.direct_notes(false)
        } else if recovers(c, failure) is Some {
            Seq::empty()
        } else {
            stage_note(c.phase, Some(failure))
        },
        _ => stage_note(c.phase, None) + further_notes(c),
    }
}

pub open spec fn action_of(c: Compilation) -> CompileAction {
    match c.phase {
        CompilePhase::AdmissionCheck
        | CompilePhase::FrameRetryCheck
        | CompilePhase::BudgetRetryCheck
        | CompilePhase::LowerRetryCheck
        | CompilePhase::FinalCheck => CompileAction::CheckControl,
        CompilePhase::InitialTranslate => CompileAction::Translate { inline: true, frame_inline: true },
        CompilePhase::FrameRetry => CompileAction::Translate { inline: true, frame_inline: false },
        CompilePhase::BudgetRetryTranslate | CompilePhase::LowerRetryTranslate => CompileAction::Translate {
            inline: false,
            frame_inline: false,
        },
        CompilePhase::Budget | CompilePhase::BudgetRetry | CompilePhase::LowerRetryBudget => CompileAction::CheckBudget,
        CompilePhase::SidePath => CompileAction::ValidateSidePath,
        CompilePhase::InitialLower | CompilePhase::LowerRetry => CompileAction::Lower,
        CompilePhase::DirectLower => CompileAction::LowerDirect,
        CompilePhase::Complete => CompileAction::Publish { direct: c.direct_code },
        CompilePhase::Failed(failure) => CompileAction::Abort(failure),
    }
}

fn append(list: &mut Vec<StageNote>, more: Vec<StageNote>)
    ensures
        final(list)@ == old(list)@ + more@,
{
    let ghost before = list@;
    let mut i: usize = 0;
    while i < more.len()
        invariant
            i <= more@.len(),
            list@ == before + more@.take(i as int),
        decreases more@.len() - i,
    {
        list.push(more[i]);
        assert(list@ =~= before + more@.take(i + 1));
        i = i + 1;
    }
    assert(more@.take(more@.len() as int) =~= more@);
}

fn pass(stage: Tier2CompileStage) -> (r: StageNote)
    ensures
        r == passed(stage),
{
    StageNote { stage, failure: None, forced: false }
}

fn one_note(note: StageNote) -> (r: Vec<StageNote>)
    ensures
        r@ == seq![note],
{
    let mut list: Vec<StageNote> = Vec::new();
    list.push(note);
    list
}

fn note_for(phase: CompilePhase, failure: Option<CompileFailure>) -> (r: Vec<StageNote>)
    ensures
        r@ == stage_note(phase, failure),
{
    let stage = match phase {
        CompilePhase::AdmissionCheck => Tier2CompileStage::Admission,
        CompilePhase::InitialTranslate => Tier2CompileStage::InitialTranslate,
        CompilePhase::FrameRetryCheck | CompilePhase::FrameRetry => Tier2CompileStage::FrameTranslateRetry,
        CompilePhase::Budget | CompilePhase::BudgetRetryCheck | CompilePhase::BudgetRetry => Tier2CompileStage::IrBudget,
        CompilePhase::SidePath => Tier2CompileStage::SidePathValidation,
        CompilePhase::InitialLower => Tier2CompileStage::InitialLower,
        CompilePhase::LowerRetryCheck | CompilePhase::LowerRetryTranslate => Tier2CompileStage::InlineLowerRetryTranslate,
        CompilePhase::LowerRetryBudget => Tier2CompileStage::InlineLowerRetryBudget,
        CompilePhase::LowerRetry => Tier2CompileStage::InlineLowerRetry,
        CompilePhase::DirectLower | CompilePhase::FinalCheck => Tier2CompileStage::DirectLower,
        _ => {
            return Vec::new();
        },
    };
    one_note(StageNote { stage, failure, forced: false })
}

fn published(direct_code: bool) -> (r: Vec<StageNote>)
    ensures
        r@ == publication_notes(direct_code),
{
    let mut list = one_note(pass(Tier2CompileStage::ArtifactBind));
    if direct_code {
        list.push(pass(Tier2CompileStage::DirectMetadata));
    }
    list.push(pass(Tier2CompileStage::Complete));
    assert(list@ =~= publication_notes(direct_code));
    list
}

impl Compilation {
    fn move_to(&mut self, phase: CompilePhase)
        ensures
            *final(self) == old(self).at(phase),
    {
        self.phase = phase;
    }

    fn admit_now(&mut self) -> (r: Vec<StageNote>)
        ensures
            *final(self) == old(self).after_admission(),
            r@ == old(self).admission_notes(),
    {
        if self.admitted {
            self.move_to(CompilePhase::InitialTranslate);
            let mut list = one_note(pass(Tier2CompileStage::FromFeedback));
            list.push(pass(Tier2CompileStage::RetainInlineCallees));
            assert(list@ =~= old(self).admission_notes());
            list
        } else {
            self.move_to(CompilePhase::Failed(CompileFailure::InvalidArtifact));
            one_note(
                StageNote {
                    stage: Tier2CompileStage::Admission,
                    failure: Some(CompileFailure::InvalidArtifact),
                    forced: true,
                },
            )
        }
    }

    fn pass_budget(&mut self) -> (r: Vec<StageNote>)
        ensures
            *final(self) == old(self).after_budget(),
            r@ == old(self).budget_notes(),
    {
        if self.side_path {
            self.move_to(CompilePhase::SidePath);
            Vec::new()
        } else {
            self.move_to(CompilePhase::InitialLower);
            one_note(pass(Tier2CompileStage::DirectDependencies))
        }
    }

    fn pass_translation(&mut self, inlined: bool, frame_inlined: bool) -> (r: Vec<StageNote>)
        ensures
            *final(self) == old(self).after_translation(inlined, frame_inlined),
            r@ == old(self).translation_notes(),
    {
        self.inlined = inlined;
        self.frame_inlined = frame_inlined;
        if self.controlled {
            self.move_to(CompilePhase::Budget);
            Vec::new()
        } else {
            self.pass_budget()
        }
    }

    fn pass_direct(&mut self, direct_code: bool) -> (r: Vec<StageNote>)
        ensures
            *final(self) == old(self).after_direct(direct_code),
            r@ == old(self).direct_notes(direct_code),
    {
        self.direct_code = direct_code;
        if self.controlled {
            self.move_to(CompilePhase::FinalCheck);
            Vec::new()
        } else {
            self.move_to(CompilePhase::Complete);
            published(direct_code)
        }
    }

    fn pass_lowering(&mut self) -> (r: Vec<StageNote>)
        ensures
            *final(self) == old(self).after_lowering(),
            r@ == old(self).lowering_notes(),
    {
        if self.direct_signature && !self.side_path {
            self.move_to(CompilePhase::DirectLower);
            Vec::new()
        } else {
            self.pass_direct(false)
        }
    }

    /// Starts the compilation of a request. Only a compilation under a control
    /// is checked before it is admitted.
    pub fn start(request: &CompileRequest, kept: &Vec<bool>, controlled: bool) -> (r: (Self, Vec<StageNote>))
        ensures
            ({
                let fresh = Compilation {
                    controlled,
                    admitted: is_admitted(*request),
                    side_path: request.side_path_profile is Some,
                    frame_callees: kept@.contains(true),
                    direct_signature: request.feedback.spec_signature(request.key) is Some,
                    inlined: false,
                    frame_inlined: false,
                    direct_code: false,
                    phase: CompilePhase::AdmissionCheck,
                };
                if controlled {
                    r.0 == fresh && r.1@.len() == 0
                } else {
                    r.0 == fresh.after_admission() && r.1@ == fresh.admission_notes()
                }
            }),
    {
        let mut frame_callees = false;
        let mut i: usize = 0;
        while i < kept.len()
            invariant
                i <= kept@.len(),
                frame_callees == kept@.take(i as int).contains(true),
            decreases kept@.len() - i,
        {
            proof {
                let seen = kept@.take(i as int);
                assert(kept@.take(i + 1) =~= seen.push(kept@[i as int]));
                crate::diagnostics::push_contains(seen, kept@[i as int], true);
            }
            if kept[i] {
                frame_callees = true;
            }
            i = i + 1;
        }
        assert(kept@.take(kept@.len() as int) =~= kept@);
        let mut fresh = Compilation {
            controlled,
            admitted: admits(request),
            side_path: request.side_path_profile.is_some(),
            frame_callees,
            direct_signature: request.feedback.bounded_specialization(request.key).is_some(),
            inlined: false,
            frame_inlined: false,
            direct_code: false,
            phase: CompilePhase::AdmissionCheck,
        };
        if controlled {
            (fresh, Vec::new())
        } else {
            let list = fresh.admit_now();
            (fresh, list)
        }
    }

    /// What is to be done next.
    pub fn action(&self) -> (r: CompileAction)
        ensures
            r == action_of(*self),
    {
        match self.phase {
            CompilePhase::AdmissionCheck
            | CompilePhase::FrameRetryCheck
            | CompilePhase::BudgetRetryCheck
            | CompilePhase::LowerRetryCheck
            | CompilePhase::FinalCheck => CompileAction::CheckControl,
            CompilePhase::InitialTranslate => CompileAction::Translate { inline: true, frame_inline: true },
            CompilePhase::FrameRetry => CompileAction::Translate { inline: true, frame_inline: false },
            CompilePhase::BudgetRetryTranslate | CompilePhase::LowerRetryTranslate => CompileAction::Translate {
                inline: false,
                frame_inline: false,
            },
            CompilePhase::Budget | CompilePhase::BudgetRetry | CompilePhase::LowerRetryBudget => CompileAction::CheckBudget,
            CompilePhase::SidePath => CompileAction::ValidateSidePath,
            CompilePhase::InitialLower | CompilePhase::LowerRetry => CompileAction::Lower,
            CompilePhase::DirectLower => CompileAction::LowerDirect,
            CompilePhase::Complete => CompileAction::Publish { direct: self.direct_code },
            CompilePhase::Failed(failure) => CompileAction::Abort(failure),
        }
    }

    /// Goes on after an action; answers what is to be recorded.
    pub fn advance(&mut self, outcome: CompileOutcome) -> (r: Vec<StageNote>)
        ensures
            *final(self) == next(*old(self), outcome),
            r@ == notes(*old(self), outcome),
    {
        match outcome {
            CompileOutcome::Refused(failure) => self.give_up(failure),
            CompileOutcome::Done => {
                let inlined = self.inlined;
                let frame_inlined = self.frame_inlined;
                self.proceed(inlined, frame_inlined)
            },
            CompileOutcome::Translated { inlined, frame_inlined } => self.proceed(inlined, frame_inlined),
        }
    }

    fn give_up(&mut self, failure: CompileFailure) -> (r: Vec<StageNote>)
        ensures
            *final(self) == next(*old(self), CompileOutcome::Refused(failure)),
            r@ == notes(*old(self), CompileOutcome::Refused(failure)),
    {
        let invalid = matches!(failure, CompileFailure::InvalidArtifact);
        let exhausted = matches!(failure, CompileFailure::ResourceLimit);
        let phase = self.phase;
        match phase {
            CompilePhase::InitialTranslate => {
                if invalid && self.frame_callees {
                    if self.controlled {
                        self.move_to(CompilePhase::FrameRetryCheck);
                    } else {
                        self.move_to(CompilePhase::FrameRetry);
                    }
                    return Vec::new();
                }
            },
            CompilePhase::Budget => {
                if exhausted && (self.inlined || self.frame_inlined) {
                    self.move_to(CompilePhase::BudgetRetryCheck);
                    return Vec::new();
                }
            },
            CompilePhase::InitialLower => {
                let excess = self.controlled && exhausted && (self.inlined || self.frame_inlined);
                if excess || invalid && self.frame_inlined {
                    if self.controlled {
                        self.move_to(CompilePhase::LowerRetryCheck);
                    } else {
                        self.move_to(CompilePhase::LowerRetryTranslate);
                    }
                    return Vec::new();
                }
            },
            CompilePhase::DirectLower => {
                let mut list = note_for(phase, Some(failure));
                let more = self.pass_direct(false);
                append(&mut list, more);
                return list;
            },
            CompilePhase::Complete | CompilePhase::Failed(_) => {
                return Vec::new();
            },
            _ => {},
        }
        self.move_to(CompilePhase::Failed(failure));
        note_for(phase, Some(failure))
    }

    fn proceed(&mut self, inlined: bool, frame_inlined: bool) -> (r: Vec<StageNote>)
        ensures
            *final(self) == proceeds(*old(self), inlined, frame_inlined),
            r@ == stage_note(old(self).phase, None) + further_notes(*old(self)),
    {
        let phase = self.phase;
        let mut list = note_for(phase, None);
        let more: Vec<StageNote> = match phase {
            CompilePhase::AdmissionCheck => self.admit_now(),
            CompilePhase::InitialTranslate | CompilePhase::FrameRetry => self.pass_translation(inlined, frame_inlined),
            CompilePhase::FrameRetryCheck => {
                self.move_to(CompilePhase::FrameRetry);
                Vec::new()
            },
            CompilePhase::Budget | CompilePhase::BudgetRetry => self.pass_budget(),
            CompilePhase::BudgetRetryCheck => {
                self.move_to(CompilePhase::BudgetRetryTranslate);
                Vec::new()
            },
            CompilePhase::BudgetRetryTranslate => {
                self.inlined = inlined;
                self.frame_inlined = frame_inlined;
                self.move_to(CompilePhase::BudgetRetry);
                Vec::new()
            },
            CompilePhase::SidePath => {
                self.move_to(CompilePhase::InitialLower);
                one_note(pass(Tier2CompileStage::DirectDependencies))
            },
            CompilePhase::InitialLower | CompilePhase::LowerRetry => self.pass_lowering(),
            CompilePhase::LowerRetryCheck => {
                self.move_to(CompilePhase::LowerRetryTranslate);
                Vec::new()
            },
            CompilePhase::LowerRetryTranslate => {
                self.inlined = inlined;
                self.frame_inlined = frame_inlined;
                if self.controlled {
                    self.move_to(CompilePhase::LowerRetryBudget);
                } else {
                    self.move_to(CompilePhase::LowerRetry);
                }
                Vec::new()
            },
            CompilePhase::LowerRetryBudget => {
                self.move_to(CompilePhase::LowerRetry);
                Vec::new()
            },
            CompilePhase::DirectLower => self.pass_direct(true),
            CompilePhase::FinalCheck => {
                let direct_code = self.direct_code;
                self.move_to(CompilePhase::Complete);
                published(direct_code)
            },
            CompilePhase::Complete | CompilePhase::Failed(_) => Vec::new(),
        };
        append(&mut list, more);
        list
    }
}

impl Tier2Diagnostics {
    /// Records a stage: a forced one always, another unless a failure inside it
    /// is on record.
    pub fn take_note(&mut self, key: FunctionKey, note: StageNote)
        requires
            old(self).wf(),
        ensures
            final(self).wf(),
            final(self).runtime == old(self).runtime,
            final(self).sites@ == old(self).sites@,
            ({
                let kept = !note.forced && note.failure is Some && old(self).names_inner_failure(key);
                &&& kept ==> final(self).dispositions@ == old(self).dispositions@
                &&& !kept ==> final(self).recorded(
                    old(self).runtime,
                    key,
                    crate::stages::Tier2CompileDisposition { stage: note.stage, failure: note.failure },
                )
                &&& !kept ==> forall|r: u64, k: FunctionKey, d: crate::stages::Tier2CompileDisposition|
                    !(r == old(self).runtime && k == key) ==> (#[trigger] final(self).recorded(r, k, d) <==> old(
                        self,
                    ).recorded(r, k, d))
            }),
    {
        if note.forced {
            self.record_tier2_stage(key, note.stage, note.failure);
        } else {
            let result: Result<(), CompileFailure> = match note.failure {
                Some(failure) => Err(failure),
                None => Ok(()),
            };
            let _ = self.tier2_stage(key, note.stage, result);
        }
    }
}

/// How many actions a compilation can still take.
pub open spec fn remaining(phase: CompilePhase) -> int {
    match phase {
        CompilePhase::AdmissionCheck => 16,
        CompilePhase::InitialTranslate => 15,
        CompilePhase::FrameRetryCheck => 14,
        CompilePhase::FrameRetry => 13,
        CompilePhase::Budget => 12,
        CompilePhase::BudgetRetryCheck => 11,
        CompilePhase::BudgetRetryTranslate => 10,
        CompilePhase::BudgetRetry => 9,
        CompilePhase::SidePath => 8,
        CompilePhase::InitialLower => 7,
        CompilePhase::LowerRetryCheck => 6,
        CompilePhase::LowerRetryTranslate => 5,
        CompilePhase::LowerRetryBudget => 4,
        CompilePhase::LowerRetry => 3,
        CompilePhase::DirectLower => 2,
        CompilePhase::FinalCheck => 1,
        CompilePhase::Complete => 0,
        CompilePhase::Failed(_) => 0,
    }
}

pub open spec fn is_over(phase: CompilePhase) -> bool {
    phase == CompilePhase::Complete || phase is Failed
}

/// Every action brings a compilation closer to its end, whatever its outcome.
pub proof fn compilation_ends(c: Compilation, outcome: CompileOutcome)
    requires
        !is_over(c.phase),
    ensures
        0 <= remaining(next(c, outcome).phase) < remaining(c.phase),
{
}

/// A compilation fails with what its last action was refused for, or because
/// it was not admitted.
pub proof fn failures_are_passed_on(c: Compilation, outcome: CompileOutcome)
    requires
        !is_over(c.phase),
        next(c, outcome).phase is Failed,
    ensures
        ({
            let failure = next(c, outcome).phase->Failed_0;
            ||| outcome == CompileOutcome::Refused(failure)
            ||| c.phase == CompilePhase::AdmissionCheck && !c.admitted && failure == CompileFailure::InvalidArtifact
        }),
{
}

/// An interruption ends a compilation, except that it only costs the direct
/// entry of code that is already there, whose compilation is checked once more.
pub proof fn interruptions_end_a_compilation(c: Compilation, failure: CompileFailure)
    requires
        !is_over(c.phase),
        c.phase != CompilePhase::DirectLower,
        crate::control::is_interruption(failure),
    ensures
        next(c, CompileOutcome::Refused(failure)) == c.at(CompilePhase::Failed(failure)),
{
}

/// Phases that only a compilation under a control can reach.
pub open spec fn needs_control(phase: CompilePhase) -> bool {
    match phase {
        CompilePhase::AdmissionCheck
        | CompilePhase::FrameRetryCheck
        | CompilePhase::Budget
        | CompilePhase::BudgetRetryCheck
        | CompilePhase::BudgetRetryTranslate
        | CompilePhase::BudgetRetry
        | CompilePhase::LowerRetryCheck
        | CompilePhase::LowerRetryBudget
        | CompilePhase::FinalCheck => true,
        _ => false,
    }
}

/// Without a control, nothing asks for one.
pub proof fn uncontrolled_compilations_ask_no_control(c: Compilation, outcome: CompileOutcome)
    requires
        !c.controlled,
        !needs_control(c.phase),
    ensures
        !next(c, outcome).controlled,
        !needs_control(next(c, outcome).phase),
        action_of(c) != CompileAction::CheckControl,
        action_of(c) != CompileAction::CheckBudget,
{
}

/// Code is published only where the machine code was made.
pub proof fn only_lowered_code_is_published(c: Compilation, outcome: CompileOutcome)
    requires
        next(c, outcome).phase == CompilePhase::Complete || next(c, outcome).phase == CompilePhase::FinalCheck || next(
            c,
            outcome,
        ).phase == CompilePhase::DirectLower,
        c.phase != next(c, outcome).phase,
    ensures
        match c.phase {
            CompilePhase::InitialLower | CompilePhase::LowerRetry | CompilePhase::FinalCheck => !(outcome is Refused),
            _ => c.phase == CompilePhase::DirectLower,
        },
{
}

} // verus!
