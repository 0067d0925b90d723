//! The tags of values, and the limits that planning and compiling keep to.
use crate::array_plan::MAX_CANDIDATES;
use crate::call_guards::MAX_ANALYSIS_WORK;
use crate::call_guards::MAX_EMISSION_UNITS;
use crate::call_guards::MAX_TARGET_CHECKS;
use crate::call_guards::units_fit;
use crate::config::JitSettings;
use crate::config::default_settings;
use crate::config::first_zero;
use crate::control::CompileFailure;
use crate::direct_leaf::linked_refusal;
use crate::entry_state::MAX_PROVENANCE_WORK;
use crate::entry_state::work_limit;
use crate::inline_calls::MAX_INLINE_BLOCKS;
use crate::ir::OptimizedIr;
use crate::machine_plan::MAX_REFINEMENTS;
use crate::qjs::JS_TAG_BOOL;
use crate::qjs::JS_TAG_FIRST;
use crate::qjs::JS_TAG_FLOAT64;
use crate::qjs::JS_TAG_INT;
use crate::qjs::JS_TAG_NULL;
use crate::qjs::JS_TAG_OBJECT;
use crate::qjs::JS_TAG_STRING;
use crate::qjs::JS_TAG_SYMBOL;
use crate::qjs::JS_TAG_UNDEFINED;
use crate::qjs::JS_TAG_UNINITIALIZED;
use crate::runtime::BoundedSignature;
use crate::runtime::VerifiedFunction;
use vstd::prelude::*;

verus! {

/// No two tags are the same. Those of values that are counted are negative, and no
/// other is below the first of them.
pub proof fn tags_are_told_apart()
    ensures
        JS_TAG_FIRST < JS_TAG_SYMBOL < JS_TAG_STRING < JS_TAG_OBJECT < 0,
        JS_TAG_OBJECT == -1 && JS_TAG_STRING == -7 && JS_TAG_SYMBOL == -8 && JS_TAG_FIRST == -9,
        JS_TAG_INT == 0 && JS_TAG_BOOL == 1 && JS_TAG_NULL == 2 && JS_TAG_UNDEFINED == 3,
        JS_TAG_UNINITIALIZED == 4 && JS_TAG_FLOAT64 == 8,
{
}

/// Call targets are checked only where the checks are few and their code is small:
/// one more target or site never makes them fit.
pub proof fn target_checks_are_bounded(targets: int, sites: int, slots: int)
    requires
        0 < targets,
        0 <= sites,
        0 <= slots,
        units_fit(targets, sites, slots),
    ensures
        targets * sites <= 512,
        sites * (targets * (slots * 4 + 32) + slots * 8 + 64) <= 65_536,
        MAX_TARGET_CHECKS == 512 && MAX_EMISSION_UNITS == 65_536 && MAX_ANALYSIS_WORK == 1_048_576,
{
}

/// At most sixteen arrays are planned for, a callee in place has at most sixteen
/// blocks, and a plan is refined at most thirty-two times.
pub proof fn plans_are_bounded()
    ensures
        MAX_CANDIDATES == 16,
        MAX_INLINE_BLOCKS == 16,
        MAX_REFINEMENTS == 32,
{
}

/// The work on origins grows with the graph up to a limit.
pub proof fn work_on_origins_is_bounded(ir: OptimizedIr)
    ensures
        work_limit(ir) <= 1_048_576,
        work_limit(ir) <= 128 * (ir.values@.len() + ir.blocks@.len()),
        work_limit(ir) == 1_048_576 || work_limit(ir) == 128 * (ir.values@.len() + ir.blocks@.len()),
        MAX_PROVENANCE_WORK == 1_048_576,
{
}

/// A linked leaf is small: otherwise it is refused for that reason, whatever else
/// is wrong with it.
pub proof fn linked_leaves_are_small(function: VerifiedFunction, signature: BoundedSignature, blocks: int)
    ensures
        linked_refusal(function, signature, blocks) == Some(CompileFailure::ResourceLimit) <==> function.instructions@.len() > 128
            || function.arg_count + function.local_count + function.stack_size > 64 || function.retained_bytes > 16_384,
        linked_refusal(function, signature, blocks) is None ==> signature.function == function.key && blocks == 1
            && !function.has_exceptions,
{
}

/// Every limit of the default settings is positive, and they are the documented
/// ones.
pub proof fn default_settings_are_the_documented_ones()
    ensures
        ({
            let d = default_settings();
            &&& first_zero(d) is None
            &&& d.call_threshold == 32 && d.loop_threshold == 56
            &&& d.max_code_bytes == 0x100_0000 && d.max_metadata_bytes == 0x100_0000
            &&& d.max_snapshot_bytes == 0x400_0000 && d.max_ir_bytes == 0x400_0000
            &&& d.compile_timeout_ms == 30_000 && d.max_queue_len == 256 && d.workers == 1 && d.max_compile_attempts == 4
            &&& !d.stress_gc && d.diagnostic_callback is None && d.metrics_observer is None
        }),
{
}

/// Settings are refused for the first limit that is zero, and only for that.
pub proof fn settings_are_refused_for_a_zero(s: JitSettings)
    ensures
        first_zero(s) is None <==> s.call_threshold > 0 && s.loop_threshold > 0 && s.max_code_bytes > 0 && s.max_metadata_bytes > 0
            && s.max_snapshot_bytes > 0 && s.max_ir_bytes > 0 && s.compile_timeout_ms > 0 && s.max_queue_len > 0 && s.workers > 0
            && s.max_compile_attempts > 0,
        s.call_threshold == 0 ==> first_zero(s) == Some("call_threshold"@),
        s.call_threshold > 0 && s.loop_threshold == 0 ==> first_zero(s) == Some("loop_threshold"@),
{
}

} // verus!
