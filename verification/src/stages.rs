//! The stages of a compilation, and what became of each.
use crate::control::CompileFailure;
use vstd::prelude::*;

verus! {

#[derive(Clone, Copy, Debug, PartialEq, Eq, Structural)]
pub enum Tier2CompileStage {
    Admission,
    FromFeedback,
    RetainInlineCallees,
    InitialTranslate,
    FrameTranslateRetry,
    IrBudget,
    SidePathValidation,
    DirectDependencies,
    InitialLower,
    InlineLowerRetryTranslate,
    InlineLowerRetryBudget,
    InlineLowerRetry,
    DirectLower,
    ArtifactBind,
    DirectMetadata,
    GenericCallBaseUnderflow,
    GenericCallPrefixUnknown,
    GenericCallOutputCapacity,
    GenericCallSemanticMissing,
    GenericCallFrameStateMissing,
    GenericCallShapeMismatch,
    GenericCallArityMismatch,
    GenericCallGuardMissing,
    GenericCallEmit,
    PropertyFeedbackMissing,
    Complete,
}

/// The last stage that a compilation reached, and how it failed there.
#[derive(Clone, Copy, Debug, PartialEq, Eq, Structural)]
pub struct Tier2CompileDisposition {
    pub stage: Tier2CompileStage,
    pub failure: Option<CompileFailure>,
}

/// A failure of the lowering, with the stage that it is to be recorded under.
#[derive(Clone, Copy, Debug, PartialEq, Eq, Structural)]
pub struct Refusal {
    pub failure: CompileFailure,
    pub stage: Option<Tier2CompileStage>,
}

} // verus!
