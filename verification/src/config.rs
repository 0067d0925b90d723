//! JIT policy and resource limits.
use vstd::prelude::*;

verus! {

pub const DEFAULT_CALL_THRESHOLD: u32 = 32;

pub const DEFAULT_LOOP_THRESHOLD: u32 = 56;

pub const DEFAULT_MAX_CODE_BYTES: usize = 16 * 1024 * 1024;

pub const DEFAULT_MAX_METADATA_BYTES: usize = 16 * 1024 * 1024;

pub const DEFAULT_MAX_SNAPSHOT_BYTES: usize = 64 * 1024 * 1024;

pub const DEFAULT_MAX_IR_BYTES: usize = 64 * 1024 * 1024;

pub const DEFAULT_COMPILE_TIMEOUT_MS: u64 = 30_000;

pub const DEFAULT_MAX_QUEUE_LEN: usize = 256;

pub const DEFAULT_WORKERS: usize = 1;

pub const DEFAULT_MAX_COMPILE_ATTEMPTS: u8 = 4;

/// How the runtime's interface differs from the one that was compiled against.
#[derive(Clone, Copy, Debug, PartialEq, Eq, Structural)]
pub struct AbiMismatch {
    pub expected: u64,
    pub found: u64,
}

#[derive(Clone, Copy, Debug, PartialEq, Eq, Structural)]
pub enum JitDiagnosticKind {
    AbiMismatch(AbiMismatch),
    BackendAttachment,
}

#[derive(Clone, Copy, Debug, PartialEq, Eq, Structural)]
pub struct JitDiagnostic {
    kind: JitDiagnosticKind,
}

impl JitDiagnostic {
    pub closed spec fn view(&self) -> JitDiagnosticKind {
        self.kind
    }

    pub fn kind(&self) -> (r: &JitDiagnosticKind)
        ensures
            *r == self@,
    {
        &self.kind
    }
}

/// A callback of the embedder, by the number under which it is registered.
#[derive(Clone, Copy, Debug, PartialEq, Eq, Structural)]
pub struct CallbackId {
    pub id: u64,
}

/// A callback to be run, and what it is handed.
#[derive(Clone, Copy, Debug, PartialEq, Eq, Structural)]
pub struct Report {
    pub callback: CallbackId,
    pub diagnostic: JitDiagnostic,
}

#[derive(Clone, Copy, Debug, PartialEq, Eq)]
pub enum JitError {
    /// The field that is out of bounds.
    InvalidConfig(&'static str),
}

/// Every setting of a JIT runtime.
#[derive(Clone, Copy, Debug, PartialEq, Eq, Structural)]
pub struct JitSettings {
    pub call_threshold: u32,
    pub loop_threshold: u32,
    pub max_code_bytes: usize,
    pub max_metadata_bytes: usize,
    pub max_snapshot_bytes: usize,
    pub max_ir_bytes: usize,
    pub compile_timeout_ms: u64,
    pub max_queue_len: usize,
    pub workers: usize,
    pub max_compile_attempts: u8,
    pub stress_gc: bool,
    pub diagnostic_callback: Option<CallbackId>,
    pub metrics_observer: Option<CallbackId>,
}

pub open spec fn default_settings() -> JitSettings {
    JitSettings {
        call_threshold: DEFAULT_CALL_THRESHOLD,
        loop_threshold: DEFAULT_LOOP_THRESHOLD,
        max_code_bytes: DEFAULT_MAX_CODE_BYTES,
        max_metadata_bytes: DEFAULT_MAX_METADATA_BYTES,
        max_snapshot_bytes: DEFAULT_MAX_SNAPSHOT_BYTES,
        max_ir_bytes: DEFAULT_MAX_IR_BYTES,
        compile_timeout_ms: DEFAULT_COMPILE_TIMEOUT_MS,
        max_queue_len: DEFAULT_MAX_QUEUE_LEN,
        workers: DEFAULT_WORKERS,
        max_compile_attempts: DEFAULT_MAX_COMPILE_ATTEMPTS,
        stress_gc: false,
        diagnostic_callback: None,
        metrics_observer: None,
    }
}

/// The first limit that is zero.
pub open spec fn first_zero(settings: JitSettings) -> Option<Seq<char>> {
    if settings.call_threshold == 0 {
        Some("call_threshold"@)
    } else if settings.loop_threshold == 0 {
        Some("loop_threshold"@)
    } else if settings.max_code_bytes == 0 {
        Some("max_code_bytes"@)
    } else if settings.max_metadata_bytes == 0 {
        Some("max_metadata_bytes"@)
    } else if settings.max_snapshot_bytes == 0 {
        Some("max_snapshot_bytes"@)
    } else if settings.max_ir_bytes == 0 {
        Some("max_ir_bytes"@)
    } else if settings.compile_timeout_ms == 0 {
        Some("compile_timeout_ms"@)
    } else if settings.max_queue_len == 0 {
        Some("max_queue_len"@)
    } else if settings.workers == 0 {
        Some("workers"@)
    } else if settings.max_compile_attempts == 0 {
        Some("max_compile_attempts"@)
    } else {
        None
    }
}

/// No limit is zero.
pub open spec fn bounded(settings: JitSettings) -> bool {
    &&& settings.call_threshold > 0
    &&& settings.loop_threshold > 0
    &&& settings.max_code_bytes > 0
    &&& settings.max_metadata_bytes > 0
    &&& settings.max_snapshot_bytes > 0
    &&& settings.max_ir_bytes > 0
    &&& settings.compile_timeout_ms > 0
    &&& settings.max_queue_len > 0
    &&& settings.workers > 0
    &&& settings.max_compile_attempts > 0
}

/// Bounded policy and resource limits for one JIT runtime.
#[derive(Clone, Copy, Debug, PartialEq, Eq, Structural)]
pub struct JitConfig {
    settings: JitSettings,
}

impl JitConfig {
    #[verifier::type_invariant]
    spec fn limits_are_positive(self) -> bool {
        bounded(self.settings)
    }

    pub closed spec fn view(&self) -> JitSettings {
        self.settings
    }

    /// Starts configuring a JIT runtime with bounded defaults.
    pub fn builder() -> (r: JitConfigBuilder)
        ensures
            r@ == default_settings(),
    {
        JitConfigBuilder::default()
    }

    pub fn call_threshold(&self) -> (r: u32)
        ensures
            r == self@.call_threshold,
            r > 0,
    {
        proof {
            use_type_invariant(self);
        }
        self.settings.call_threshold
    }

    pub fn loop_threshold(&self) -> (r: u32)
        ensures
            r == self@.loop_threshold,
            r > 0,
    {
        proof {
            use_type_invariant(self);
        }
        self.settings.loop_threshold
    }

    pub fn max_code_bytes(&self) -> (r: usize)
        ensures
            r == self@.max_code_bytes,
            r > 0,
    {
        proof {
            use_type_invariant(self);
        }
        self.settings.max_code_bytes
    }

    pub fn max_metadata_bytes(&self) -> (r: usize)
        ensures
            r == self@.max_metadata_bytes,
            r > 0,
    {
        proof {
            use_type_invariant(self);
        }
        self.settings.max_metadata_bytes
    }

    pub fn max_snapshot_bytes(&self) -> (r: usize)
        ensures
            r == self@.max_snapshot_bytes,
            r > 0,
    {
        proof {
            use_type_invariant(self);
        }
        self.settings.max_snapshot_bytes
    }

    pub fn max_ir_bytes(&self) -> (r: usize)
        ensures
            r == self@.max_ir_bytes,
            r > 0,
    {
        proof {
            use_type_invariant(self);
        }
        self.settings.max_ir_bytes
    }

    pub fn compile_timeout_ms(&self) -> (r: u64)
        ensures
            r == self@.compile_timeout_ms,
            r > 0,
    {
        proof {
            use_type_invariant(self);
        }
        self.settings.compile_timeout_ms
    }

    pub fn max_queue_len(&self) -> (r: usize)
        ensures
            r == self@.max_queue_len,
            r > 0,
    {
        proof {
            use_type_invariant(self);
        }
        self.settings.max_queue_len
    }

    pub fn workers(&self) -> (r: usize)
        ensures
            r == self@.workers,
            r > 0,
    {
        proof {
            use_type_invariant(self);
        }
        self.settings.workers
    }

    pub fn max_compile_attempts(&self) -> (r: u8)
        ensures
            r == self@.max_compile_attempts,
            r > 0,
    {
        proof {
            use_type_invariant(self);
        }
        self.settings.max_compile_attempts
    }

    pub fn stress_gc(&self) -> (r: bool)
        ensures
            r == self@.stress_gc,
    {
        self.settings.stress_gc
    }

    /// What is to be reported, and to whom; nothing without a callback.
    pub fn report(&self, kind: JitDiagnosticKind) -> (r: Option<Report>)
        ensures
            match self@.diagnostic_callback {
                Some(callback) => r matches Some(report) && report.callback == callback && report.diagnostic@ == kind,
                None => r is None,
            },
    {
        match self.settings.diagnostic_callback {
            Some(callback) => Some(Report { callback, diagnostic: JitDiagnostic { kind } }),
            None => None,
        }
    }

    /// Who is to see new metrics.
    pub fn observe(&self) -> (r: Option<CallbackId>)
        ensures
            r == self@.metrics_observer,
    {
        self.settings.metrics_observer
    }
}

impl Default for JitConfig {
    fn default() -> (r: Self)
        ensures
            r@ == default_settings(),
    {
        JitConfig {
            settings: JitSettings {
                call_threshold: DEFAULT_CALL_THRESHOLD,
                loop_threshold: DEFAULT_LOOP_THRESHOLD,
                max_code_bytes: DEFAULT_MAX_CODE_BYTES,
                max_metadata_bytes: DEFAULT_MAX_METADATA_BYTES,
                max_snapshot_bytes: DEFAULT_MAX_SNAPSHOT_BYTES,
                max_ir_bytes: DEFAULT_MAX_IR_BYTES,
                compile_timeout_ms: DEFAULT_COMPILE_TIMEOUT_MS,
                max_queue_len: DEFAULT_MAX_QUEUE_LEN,
                workers: DEFAULT_WORKERS,
                max_compile_attempts: DEFAULT_MAX_COMPILE_ATTEMPTS,
                stress_gc: false,
                diagnostic_callback: None,
                metrics_observer: None,
            },
        }
    }
}

/// Two configurations are equal exactly where all their settings are, and a
/// clone equals what it was made from.
pub proof fn settings_make_the_configuration(a: JitConfig, b: JitConfig)
    ensures
        a == b <==> a@ == b@,
        cloned(a, b) ==> a == b,
{
}

/// Builder for [`JitConfig`].
#[derive(Clone, Copy, Debug)]
pub struct JitConfigBuilder {
    settings: JitSettings,
}

impl Default for JitConfigBuilder {
    fn default() -> (r: Self)
        ensures
            r@ == default_settings(),
    {
        JitConfigBuilder { settings: JitConfig::default().settings }
    }
}

impl JitConfigBuilder {
    pub closed spec fn view(&self) -> JitSettings {
        self.settings
    }

    pub fn call_threshold(self, value: u32) -> (r: Self)
        ensures
            r@ == (JitSettings { call_threshold: value, ..self@ }),
    {
        JitConfigBuilder { settings: JitSettings { call_threshold: value, ..self.settings } }
    }

    pub fn loop_threshold(self, value: u32) -> (r: Self)
        ensures
            r@ == (JitSettings { loop_threshold: value, ..self@ }),
    {
        JitConfigBuilder { settings: JitSettings { loop_threshold: value, ..self.settings } }
    }

    pub fn max_code_bytes(self, value: usize) -> (r: Self)
        ensures
            r@ == (JitSettings { max_code_bytes: value, ..self@ }),
    {
        JitConfigBuilder { settings: JitSettings { max_code_bytes: value, ..self.settings } }
    }

    pub fn max_metadata_bytes(self, value: usize) -> (r: Self)
        ensures
            r@ == (JitSettings { max_metadata_bytes: value, ..self@ }),
    {
        JitConfigBuilder { settings: JitSettings { max_metadata_bytes: value, ..self.settings } }
    }

    pub fn max_snapshot_bytes(self, value: usize) -> (r: Self)
        ensures
            r@ == (JitSettings { max_snapshot_bytes: value, ..self@ }),
    {
        JitConfigBuilder { settings: JitSettings { max_snapshot_bytes: value, ..self.settings } }
    }

    pub fn max_ir_bytes(self, value: usize) -> (r: Self)
        ensures
            r@ == (JitSettings { max_ir_bytes: value, ..self@ }),
    {
        JitConfigBuilder { settings: JitSettings { max_ir_bytes: value, ..self.settings } }
    }

    pub fn compile_timeout_ms(self, value: u64) -> (r: Self)
        ensures
            r@ == (JitSettings { compile_timeout_ms: value, ..self@ }),
    {
        JitConfigBuilder { settings: JitSettings { compile_timeout_ms: value, ..self.settings } }
    }

    pub fn max_queue_len(self, value: usize) -> (r: Self)
        ensures
            r@ == (JitSettings { max_queue_len: value, ..self@ }),
    {
        JitConfigBuilder { settings: JitSettings { max_queue_len: value, ..self.settings } }
    }

    pub fn workers(self, value: usize) -> (r: Self)
        ensures
            r@ == (JitSettings { workers: value, ..self@ }),
    {
        JitConfigBuilder { settings: JitSettings { workers: value, ..self.settings } }
    }

    pub fn max_compile_attempts(self, value: u8) -> (r: Self)
        ensures
            r@ == (JitSettings { max_compile_attempts: value, ..self@ }),
    {
        JitConfigBuilder { settings: JitSettings { max_compile_attempts: value, ..self.settings } }
    }

    pub fn stress_gc(self, value: bool) -> (r: Self)
        ensures
            r@ == (JitSettings { stress_gc: value, ..self@ }),
    {
        JitConfigBuilder { settings: JitSettings { stress_gc: value, ..self.settings } }
    }

    pub fn diagnostic_callback(self, callback: CallbackId) -> (r: Self)
        ensures
            r@ == (JitSettings { diagnostic_callback: Some(callback), ..self@ }),
    {
        JitConfigBuilder { settings: JitSettings { diagnostic_callback: Some(callback), ..self.settings } }
    }

    /// Observes the latest metrics after each explicit poll.
    pub fn metrics_observer(self, callback: CallbackId) -> (r: Self)
        ensures
            r@ == (JitSettings { metrics_observer: Some(callback), ..self@ }),
    {
        JitConfigBuilder { settings: JitSettings { metrics_observer: Some(callback), ..self.settings } }
    }

    /// The configuration, unless a limit is zero: the first such limit is the
    /// one that is named.
    pub fn build(self) -> (r: Result<JitConfig, JitError>)
        ensures
            match first_zero(self@) {
                Some(field) => r matches Err(JitError::InvalidConfig(name)) && name@ == field,
                None => r matches Ok(config) && config@ == self@,
            },
            r is Ok <==> bounded(self@),
    {
        if self.settings.call_threshold == 0 {
            return Err(JitError::InvalidConfig("call_threshold"));
        }
        if self.settings.loop_threshold == 0 {
            return Err(JitError::InvalidConfig("loop_threshold"));
        }
        if self.settings.max_code_bytes == 0 {
            return Err(JitError::InvalidConfig("max_code_bytes"));
        }
        if self.settings.max_metadata_bytes == 0 {
            return Err(JitError::InvalidConfig("max_metadata_bytes"));
        }
        if self.settings.max_snapshot_bytes == 0 {
            return Err(JitError::InvalidConfig("max_snapshot_bytes"));
        }
        if self.settings.max_ir_bytes == 0 {
            return Err(JitError::InvalidConfig("max_ir_bytes"));
        }
        if self.settings.compile_timeout_ms == 0 {
            return Err(JitError::InvalidConfig("compile_timeout_ms"));
        }
        if self.settings.max_queue_len == 0 {
            return Err(JitError::InvalidConfig("max_queue_len"));
        }
        if self.settings.workers == 0 {
            return Err(JitError::InvalidConfig("workers"));
        }
        if self.settings.max_compile_attempts == 0 {
            return Err(JitError::InvalidConfig("max_compile_attempts"));
        }
        Ok(JitConfig { settings: self.settings })
    }
}

/// Settings without a zero limit, and only they, have no first zero limit.
pub proof fn only_bounded_settings_build(settings: JitSettings)
    ensures
        first_zero(settings) is None <==> bounded(settings),
{
}

/// The defaults are bounded.
pub proof fn defaults_are_bounded()
    ensures
        bounded(default_settings()),
        first_zero(default_settings()) is None,
{
}

} // verus!
