//! What a compilation tries, what it retries, and what it publishes.
use crate::control::CompileFailure;
use crate::runtime::ObservedType;
use crate::runtime::SidePathProfile;
use crate::runtime::VerifiedFunction;
use crate::specialization::NumericSpecialization;
use crate::tier2::Compilation;
use crate::tier2::CompileAction;
use crate::tier2::CompileOutcome;
use crate::tier2::CompilePhase;
use crate::tier2::CompileRequest;
use crate::tier2::FrameInlineTarget;
use crate::tier2::Tier;
use crate::tier2::action_of;
use crate::tier2::called_functions;
use crate::tier2::has_grounds;
use crate::tier2::is_admitted;
use crate::tier2::is_over;
use crate::tier2::linked;
use crate::tier2::next;
use crate::tier2::notes;
use crate::tier2::recovers;
use crate::tier2::retained;
use crate::tier2::saturating_sum;
use crate::tier2::side_path_fits;
use crate::tier2::target_at;
use vstd::prelude::*;

verus! {

/// Only what inlining caused is tried again: a graph that is too large, or that
/// the callee's bytecode made unusable. A code that has no lowering, and a failure
/// of the code generator, end the compilation, unless only the direct entry is
/// missing.
pub proof fn only_inlining_is_retried(c: Compilation, failure: CompileFailure)
    requires
        recovers(c, failure) is Some,
        c.phase != CompilePhase::DirectLower,
    ensures
        failure == CompileFailure::ResourceLimit || failure == CompileFailure::InvalidArtifact,
        failure == CompileFailure::ResourceLimit ==> c.controlled && (c.inlined || c.frame_inlined) || c.phase
            == CompilePhase::Budget,
        failure == CompileFailure::InvalidArtifact ==> c.frame_inlined || c.frame_callees,
        c.phase == CompilePhase::InitialTranslate || c.phase == CompilePhase::Budget || c.phase == CompilePhase::InitialLower,
{
}

/// A retry translates again and inlines less: without the callees' bytecode where
/// that was unusable, and nothing at all where the graph was too large or its code
/// could not be made.
pub proof fn retries_inline_less(c: Compilation, failure: CompileFailure)
    requires
        recovers(c, failure) is Some,
        c.phase != CompilePhase::DirectLower,
    ensures
        ({
            let after = next(c, CompileOutcome::Refused(failure));
            let again = if action_of(after) == CompileAction::CheckControl {
                next(after, CompileOutcome::Done)
            } else {
                after
            };
            &&& after.inlined == c.inlined && after.frame_inlined == c.frame_inlined
            &&& c.controlled ==> action_of(after) == CompileAction::CheckControl
            &&& c.phase == CompilePhase::InitialTranslate ==> action_of(again) == CompileAction::Translate {
                inline: true,
                frame_inline: false,
            }
            &&& c.phase != CompilePhase::InitialTranslate ==> action_of(again) == CompileAction::Translate {
                inline: false,
                frame_inline: false,
            }
        }),
{
}

/// The first translation inlines all that was retained.
pub proof fn first_translation_inlines(c: Compilation)
    requires
        c.phase == CompilePhase::AdmissionCheck,
    ensures
        c.admitted ==> action_of(next(c, CompileOutcome::Done)) == (CompileAction::Translate { inline: true, frame_inline: true }),
        !c.admitted ==> action_of(next(c, CompileOutcome::Done)) == CompileAction::Abort(CompileFailure::InvalidArtifact),
{
}

/// What a translation answered is what is known of the graph; nothing else changes
/// that, nor what the compilation was begun with.
pub proof fn graphs_are_as_translated(c: Compilation, outcome: CompileOutcome)
    requires
        !is_over(c.phase),
    ensures
        ({
            let after = next(c, outcome);
            &&& after.controlled == c.controlled && after.admitted == c.admitted && after.side_path == c.side_path
            &&& after.frame_callees == c.frame_callees && after.direct_signature == c.direct_signature
            &&& outcome is Refused || outcome is Done ==> after.inlined == c.inlined && after.frame_inlined == c.frame_inlined
            &&& action_of(c) is Translate && outcome is Translated ==> after.inlined == outcome->inlined && after.frame_inlined
                == outcome->frame_inlined
        }),
{
}

/// A compilation for a side path is validated as one before its code is made, and
/// gets no direct entry.
pub proof fn side_paths_are_validated(c: Compilation, outcome: CompileOutcome)
    requires
        c.side_path,
        !is_over(c.phase),
        c.phase != next(c, outcome).phase,
    ensures
        next(c, outcome).phase == CompilePhase::InitialLower ==> action_of(c) == CompileAction::ValidateSidePath && !(outcome is Refused),
        next(c, outcome).phase != CompilePhase::DirectLower,
{
}

/// Others are lowered without that.
pub proof fn other_paths_are_not(c: Compilation, outcome: CompileOutcome)
    requires
        !c.side_path,
        c.phase != CompilePhase::SidePath,
    ensures
        next(c, outcome).phase != CompilePhase::SidePath,
{
}

/// A direct entry is tried exactly for a function with a signature that is no side
/// path; it is published only where it was made, and its failure costs nothing
/// else.
pub proof fn direct_entries_are_optional(c: Compilation, outcome: CompileOutcome)
    requires
        !is_over(c.phase),
    ensures
        ({
            let after = next(c, outcome);
            let lowered = (c.phase == CompilePhase::InitialLower || c.phase == CompilePhase::LowerRetry) && !(outcome is Refused);
            &&& lowered ==> (action_of(after) == CompileAction::LowerDirect <==> c.direct_signature && !c.side_path)
            &&& after.direct_code && !c.direct_code ==> c.phase == CompilePhase::DirectLower && !(outcome is Refused)
            &&& c.phase == CompilePhase::DirectLower ==> !(after.phase is Failed) && after.direct_code == !(outcome is Refused)
            &&& after.phase == CompilePhase::Complete ==> action_of(after) == CompileAction::Publish { direct: after.direct_code }
        }),
{
}

/// Under a control, code is published only after a last look at it.
pub proof fn controlled_code_is_checked_last(c: Compilation, outcome: CompileOutcome)
    requires
        c.controlled,
        c.phase != CompilePhase::Complete,
        next(c, outcome).phase == CompilePhase::Complete,
    ensures
        action_of(c) == CompileAction::CheckControl,
        !(outcome is Refused),
{
}

/// Every graph is held to the budget under a control before code is made of it.
pub proof fn controlled_graphs_are_budgeted(c: Compilation, outcome: CompileOutcome)
    requires
        c.controlled,
        action_of(c) is Translate,
        !(outcome is Refused),
    ensures
        action_of(next(c, outcome)) == CompileAction::CheckBudget,
{
}

/// A failure that ends a compilation is noted at the stage where it came up, and a
/// retried one is not noted.
pub proof fn final_failures_are_noted(c: Compilation, failure: CompileFailure)
    requires
        !is_over(c.phase),
        c.phase != CompilePhase::DirectLower,
        c.phase != CompilePhase::BudgetRetryTranslate,
    ensures
        next(c, CompileOutcome::Refused(failure)).phase is Failed ==> notes(c, CompileOutcome::Refused(failure)).len() == 1
            && notes(c, CompileOutcome::Refused(failure))[0].failure == Some(failure),
        !(next(c, CompileOutcome::Refused(failure)).phase is Failed) ==> notes(c, CompileOutcome::Refused(failure)).len() == 0,
{
}

/// A request for the baseline tier is never admitted, nor one without any ground;
/// any one ground is enough.
pub proof fn requests_need_a_ground(request: CompileRequest)
    ensures
        request.tier == Tier::Baseline ==> !is_admitted(request),
        request.tier == Tier::Optimizing ==> (is_admitted(request) <==> has_grounds(request)),
        request.side_path_profile is Some || request.has_stable_value || request.frame_inline_targets@.len() > 0 || request.feedback.spec_signature(
            request.key,
        ) is Some ==> has_grounds(request),
        has_grounds(request) && request.side_path_profile is None && !request.has_stable_value && request.frame_inline_targets@.len()
            == 0 && request.feedback.spec_signature(request.key) is None ==> forall|i: int|
            0 <= i < request.snapshot.instructions@.len() && crate::names::spec_is_call_site(
                (#[trigger] request.snapshot.instructions@[i]).name@,
            ) ==> request.feedback.spec_call_at(request.key, request.snapshot.instructions@[i].pc) is Some,
{
}

/// A side path belongs to the function and the feedback of its request, and is one
/// for numbers.
pub proof fn side_paths_belong_to_their_request(request: CompileRequest, profile: SidePathProfile)
    ensures
        side_path_fits(request, profile) <==> profile.function == request.key && profile.feedback_epoch == request.feedback_epoch
            && request.side_path_observed && (profile.observed == ObservedType::Int32 || profile.observed == ObservedType::Float64),
{
}

/// A callee is retained with all its callers, or not at all.
pub proof fn callees_are_retained_with_their_callers(targets: Seq<FrameInlineTarget>, i: int)
    requires
        0 <= i < targets.len(),
    ensures
        retained(targets, i) ==> targets[i].verified,
        retained(targets, i) && targets[i].parent is Some ==> targets[i].parent->Some_0 < i && retained(
            targets,
            targets[i].parent->Some_0 as int,
        ),
        targets[i].verified && targets[i].parent is None ==> retained(targets, i),
        targets[i].verified && targets[i].parent is Some && targets[i].parent->Some_0 < i && retained(
            targets,
            targets[i].parent->Some_0 as int,
        ) ==> retained(targets, i),
{
}

/// A linked call belongs to an instruction of the function, and every instruction
/// that has a target is linked to it.
pub proof fn linked_calls_belong_to_instructions(request: CompileRequest, n: nat, k: int)
    requires
        n <= request.snapshot.instructions@.len(),
        0 <= k < linked(request, n).len(),
    ensures
        exists|i: int|
            0 <= i < n && target_at(request.direct_call_targets@, (#[trigger] request.snapshot.instructions@[i]).pc) == Some(
                linked(request, n)[k],
            ),
    decreases n,
{
    if n > 0 {
        let before = linked(request, (n - 1) as nat);
        let last = request.snapshot.instructions@[n - 1];
        if k < before.len() {
            linked_calls_belong_to_instructions(request, (n - 1) as nat, k);
        }
    }
}

/// A callee that code depends on is one that a specialized call site names.
pub proof fn called_functions_are_specialized(
    function: VerifiedFunction,
    specialization: NumericSpecialization,
    n: nat,
    k: int,
)
    requires
        n <= function.instructions@.len(),
        0 <= k < called_functions(function, specialization, n).len(),
    ensures
        exists|i: int|
            0 <= i < n && specialization.calls@.contains_key((#[trigger] function.instructions@[i]).pc)
                && specialization.calls@[function.instructions@[i].pc].callee == called_functions(function, specialization, n)[k],
    decreases n,
{
    if n > 0 {
        let last = function.instructions@[n - 1];
        if k < called_functions(function, specialization, (n - 1) as nat).len() {
            called_functions_are_specialized(function, specialization, (n - 1) as nat, k);
        }
    }
}

/// Counts add up, and stay at the largest number where they would not fit.
pub proof fn counts_saturate(a: u64, b: u64)
    ensures
        saturating_sum(a, b) >= a,
        saturating_sum(a, b) == saturating_sum(b, a),
        a + b <= u64::MAX ==> saturating_sum(a, b) == a + b,
        a + b > u64::MAX ==> saturating_sum(a, b) == u64::MAX,
{
}

} // verus!
