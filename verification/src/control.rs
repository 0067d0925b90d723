//! Compile failures and the control that can interrupt a compilation.
use std::sync::atomic::AtomicBool;
use std::sync::atomic::Ordering;
use std::sync::Arc;
use std::time::Instant;
use vstd::prelude::*;

verus! {

/// Why a compilation was abandoned.
#[derive(Clone, Copy, Debug, PartialEq, Eq, Structural)]
pub enum CompileFailure {
    Cancelled,
    TimedOut,
    ResourceLimit,
    UnsupportedOpcode,
    InvalidArtifact,
    Backend,
}

/// `std::time::Instant`, carried opaquely.
#[verifier::external_type_specification]
#[verifier::external_body]
pub struct ExInstant(std::time::Instant);

/// The request flag, the time budget and the memory limit of one compilation.
pub struct CompileControl {
    cancelled: Arc<AtomicBool>,
    started: Instant,
    timeout_nanos: u128,
    max_ir_bytes: usize,
}

/// Calls `AtomicBool::load`. The flag belongs to another thread, so nothing is
/// claimed of the answer.
#[verifier::external_body]
fn cancellation_requested(flag: &AtomicBool) -> bool {
    flag.load(Ordering::Acquire)
}

/// Calls `Instant::now`. The clock decides, so nothing is claimed of the answer.
#[verifier::external_body]
fn clock_now() -> Instant {
    Instant::now()
}

/// Calls `Instant::elapsed`, in nanoseconds. The clock decides, so nothing is
/// claimed of the answer.
#[verifier::external_body]
fn elapsed_nanos(started: &Instant) -> u128 {
    started.elapsed().as_nanos()
}

/// What an interrupted compilation reports.
pub open spec fn is_interruption(failure: CompileFailure) -> bool {
    failure == CompileFailure::Cancelled || failure == CompileFailure::TimedOut
}

/// The decision that `CompileControl::check` takes from the state of the flag
/// and of the clock: a requested cancellation is reported before an expired
/// deadline.
pub fn interruption(cancelled: bool, elapsed: u128, timeout: u128) -> (r: Result<(), CompileFailure>)
    ensures
        r == Err::<(), CompileFailure>(CompileFailure::Cancelled) <==> cancelled,
        r == Err::<(), CompileFailure>(CompileFailure::TimedOut) <==> !cancelled && elapsed >= timeout,
        r is Ok <==> !cancelled && elapsed < timeout,
{
    if cancelled {
        Err(CompileFailure::Cancelled)
    } else if elapsed >= timeout {
        Err(CompileFailure::TimedOut)
    } else {
        Ok(())
    }
}

impl CompileControl {
    /// The number of bytes of intermediate representation that may be live.
    pub closed spec fn ir_limit(&self) -> usize {
        self.max_ir_bytes
    }

    /// A control without a memory limit, whose time budget starts now.
    pub fn new(cancelled: Arc<AtomicBool>, timeout_nanos: u128) -> (r: Self)
        ensures
            r.ir_limit() == usize::MAX,
    {
        Self::with_ir_limit(cancelled, timeout_nanos, usize::MAX)
    }

    /// A control with a memory limit, whose time budget starts now.
    pub fn with_ir_limit(cancelled: Arc<AtomicBool>, timeout_nanos: u128, max_ir_bytes: usize) -> (r: Self)
        ensures
            r.ir_limit() == max_ir_bytes,
    {
        CompileControl { cancelled, started: clock_now(), timeout_nanos, max_ir_bytes }
    }

    /// Reports an interruption that has been asked for or is due.
    pub fn check(&self) -> (r: Result<(), CompileFailure>)
        ensures
            r is Err ==> is_interruption(r->Err_0),
    {
        interruption(cancellation_requested(&self.cancelled), elapsed_nanos(&self.started), self.timeout_nanos)
    }

    /// Rejects a working set that is larger than the memory limit.
    pub fn check_ir_bytes(&self, bytes: usize) -> (r: Result<(), CompileFailure>)
        ensures
            r is Ok <==> bytes <= self.ir_limit(),
            r is Err ==> r == Err::<(), CompileFailure>(CompileFailure::ResourceLimit),
    {
        if bytes <= self.max_ir_bytes {
            Ok(())
        } else {
            Err(CompileFailure::ResourceLimit)
        }
    }
}

} // verus!
