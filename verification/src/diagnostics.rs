//! What became of each compilation, kept per runtime.
use crate::control::CompileFailure;
use crate::runtime::first_at;
use crate::runtime::first_at_is;
use crate::runtime::first_at_none;
use crate::runtime::FunctionKey;
use crate::runtime::VerifiedFunction;
use crate::stages::Tier2CompileDisposition;
use crate::stages::Tier2CompileStage;
use vstd::prelude::*;

verus! {

#[derive(Clone, Copy, Debug, PartialEq, Eq, Structural)]
pub struct DispositionEntry {
    pub runtime: u64,
    pub key: FunctionKey,
    pub disposition: Tier2CompileDisposition,
}

/// Where a guard resumes, and the opcode there.
#[derive(Clone, Copy, Debug, PartialEq, Eq, Structural)]
pub struct SiteEntry {
    pub runtime: u64,
    pub key: FunctionKey,
    pub guard: u32,
    pub pc: u32,
    pub opcode: u8,
}

/// Where execution goes on after an exit of a guard.
#[derive(Clone, Copy, Debug, PartialEq, Eq, Structural)]
pub struct DeoptMap {
    pub guard: u32,
    pub resume_pc: u32,
}

/// The records of all runtimes, and the runtime that is being compiled for.
#[derive(Debug)]
pub struct Tier2Diagnostics {
    pub runtime: u64,
    pub dispositions: Vec<DispositionEntry>,
    pub sites: Vec<SiteEntry>,
}

/// Functions are listed by identity, then by generation.
pub open spec fn key_before(a: FunctionKey, b: FunctionKey) -> bool {
    a.id < b.id || a.id == b.id && a.generation < b.generation
}

pub open spec fn site_before(a: SiteEntry, b: SiteEntry) -> bool {
    key_before(a.key, b.key) || a.key == b.key && a.guard < b.guard
}

pub open spec fn sorted_dispositions(list: Seq<DispositionEntry>) -> bool {
    forall|i: int, j: int| 0 <= i < j < list.len() ==> key_before((#[trigger] list[i]).key, (#[trigger] list[j]).key)
}

pub open spec fn sorted_sites(list: Seq<SiteEntry>) -> bool {
    forall|i: int, j: int| 0 <= i < j < list.len() ==> site_before(#[trigger] list[i], #[trigger] list[j])
}

impl Tier2Diagnostics {
    /// Nothing is recorded twice.
    pub open spec fn wf(&self) -> bool {
        &&& forall|i: int, j: int|
            0 <= i < j < self.dispositions@.len() ==> (#[trigger] self.dispositions@[i]).runtime != (
            #[trigger] self.dispositions@[j]).runtime || self.dispositions@[i].key != self.dispositions@[j].key
        &&& forall|i: int, j: int|
            0 <= i < j < self.sites@.len() ==> (#[trigger] self.sites@[i]).runtime != (#[trigger] self.sites@[j]).runtime
                || self.sites@[i].key != self.sites@[j].key || self.sites@[i].guard != self.sites@[j].guard
    }

    /// The disposition that is recorded for a function of a runtime.
    pub open spec fn recorded(&self, runtime: u64, key: FunctionKey, disposition: Tier2CompileDisposition) -> bool {
        self.dispositions@.contains(DispositionEntry { runtime, key, disposition })
    }

    pub fn new() -> (r: Self)
        ensures
            r.wf(),
            r.runtime == 0,
            r.dispositions@.len() == 0,
            r.sites@.len() == 0,
    {
        Tier2Diagnostics { runtime: 0, dispositions: Vec::new(), sites: Vec::new() }
    }

    /// Records how far a compilation came, in place of what was recorded before.
    pub fn record_tier2_stage(&mut self, key: FunctionKey, stage: Tier2CompileStage, failure: Option<CompileFailure>)
        requires
            old(self).wf(),
        ensures
            final(self).wf(),
            final(self).runtime == old(self).runtime,
            final(self).sites@ == old(self).sites@,
            forall|r: u64, k: FunctionKey, d: Tier2CompileDisposition| #[trigger]
                final(self).recorded(r, k, d) <==> if r == old(self).runtime && k == key {
                    d == (Tier2CompileDisposition { stage, failure })
                } else {
                    old(self).recorded(r, k, d)
                },
    {
        let ghost before = self.dispositions@;
        let entry = DispositionEntry {
            runtime: self.runtime,
            key,
            disposition: Tier2CompileDisposition { stage, failure },
        };
        let mut i: usize = 0;
        while i < self.dispositions.len()
            invariant_except_break
                i <= self.dispositions@.len(),
                forall|k: int|
                    0 <= k < i ==> (#[trigger] self.dispositions@[k]).runtime != entry.runtime
                        || self.dispositions@[k].key != key,
            invariant
                self.dispositions@ == before,
                self.runtime == entry.runtime,
            ensures
                i <= self.dispositions@.len(),
                forall|k: int|
                    0 <= k < i ==> (#[trigger] self.dispositions@[k]).runtime != entry.runtime
                        || self.dispositions@[k].key != key,
                i < self.dispositions@.len() ==> self.dispositions@[i as int].runtime == entry.runtime
                    && self.dispositions@[i as int].key == key,
            decreases self.dispositions@.len() - i,
        {
            if self.dispositions[i].runtime == self.runtime && self.dispositions[i].key == key {
                break;
            }
            i = i + 1;
        }
        if i < self.dispositions.len() {
            self.dispositions.set(i, entry);
        } else {
            self.dispositions.push(entry);
        }
        proof {
            assert(self.dispositions@[i as int] == entry);
            assert forall|r: u64, k: FunctionKey, d: Tier2CompileDisposition| #[trigger]
                self.recorded(r, k, d) <==> if r == old(self).runtime && k == key {
                    d == (Tier2CompileDisposition { stage, failure })
                } else {
                    old(self).recorded(r, k, d)
                } by {
                let wanted = DispositionEntry { runtime: r, key: k, disposition: d };
                if old(self).recorded(r, k, d) && !(r == old(self).runtime && k == key) {
                    let j = choose|j: int| 0 <= j < before.len() && before[j] == wanted;
                    assert(self.dispositions@[j] == wanted);
                }
                if self.recorded(r, k, d) {
                    let j = choose|j: int| 0 <= j < self.dispositions@.len() && self.dispositions@[j] == wanted;
                    if j != i {
                        assert(before[j] == wanted);
                    }
                }
            }
        }
    }

    /// Records the stage unless a failure inside it was already recorded more
    /// precisely; answers the result unchanged.
    pub fn tier2_stage<T>(&mut self, key: FunctionKey, stage: Tier2CompileStage, result: Result<T, CompileFailure>) -> (r: Result<
        T,
        CompileFailure,
    >)
        requires
            old(self).wf(),
        ensures
            r == result,
            final(self).wf(),
            final(self).runtime == old(self).runtime,
            final(self).sites@ == old(self).sites@,
            result is Err && old(self).names_inner_failure(key)
                ==> final(self).dispositions@ == old(self).dispositions@,
            !(result is Err && old(self).names_inner_failure(key)) ==> forall|
                r: u64,
                k: FunctionKey,
                d: Tier2CompileDisposition,
            | #[trigger]
                final(self).recorded(r, k, d) <==> if r == old(self).runtime && k == key {
                    d == (Tier2CompileDisposition {
                        stage,
                        failure: if result is Err {
                            Some(result->Err_0)
                        } else {
                            None
                        },
                    })
                } else {
                    old(self).recorded(r, k, d)
                },
    {
        match result {
            Err(failure) => {
                if !self.has_inner_failure(key) {
                    self.record_tier2_stage(key, stage, Some(failure));
                }
                Err(failure)
            },
            Ok(done) => {
                self.record_tier2_stage(key, stage, None);
                Ok(done)
            },
        }
    }

    /// A failure inside a stage is on record for the function.
    pub open spec fn names_inner_failure(&self, key: FunctionKey) -> bool {
        exists|stage: Tier2CompileStage, failure: CompileFailure|
            is_inner_stage(stage) && #[trigger] self.recorded(
                self.runtime,
                key,
                Tier2CompileDisposition { stage, failure: Some(failure) },
            )
    }

    fn has_inner_failure(&self, key: FunctionKey) -> (r: bool)
        ensures
            r == self.names_inner_failure(key),
    {
        let mut i: usize = 0;
        while i < self.dispositions.len()
            invariant
                i <= self.dispositions@.len(),
                forall|k: int|
                    0 <= k < i ==> !((#[trigger] self.dispositions@[k]).runtime == self.runtime && self.dispositions@[k].key
                        == key && is_inner_stage(self.dispositions@[k].disposition.stage)
                        && self.dispositions@[k].disposition.failure is Some),
            decreases self.dispositions@.len() - i,
        {
            let entry = self.dispositions[i];
            if entry.runtime == self.runtime && entry.key == key && inner_stage(entry.disposition.stage) {
                if let Some(failure) = entry.disposition.failure {
                    assert(self.dispositions@[i as int] == DispositionEntry {
                        runtime: self.runtime,
                        key,
                        disposition: Tier2CompileDisposition {
                            stage: entry.disposition.stage,
                            failure: Some(failure),
                        },
                    });
                    assert(self.recorded(
                        self.runtime,
                        key,
                        Tier2CompileDisposition { stage: entry.disposition.stage, failure: Some(failure) },
                    ));
                    return true;
                }
            }
            i = i + 1;
        }
        proof {
            if self.names_inner_failure(key) {
                let (stage, failure) = choose|stage: Tier2CompileStage, failure: CompileFailure|
                    is_inner_stage(stage) && #[trigger] self.recorded(
                        self.runtime,
                        key,
                        Tier2CompileDisposition { stage, failure: Some(failure) },
                    );
                let wanted = DispositionEntry {
                    runtime: self.runtime,
                    key,
                    disposition: Tier2CompileDisposition { stage, failure: Some(failure) },
                };
                let j = choose|j: int| 0 <= j < self.dispositions@.len() && self.dispositions@[j] == wanted;
                assert(self.dispositions@[j].runtime == self.runtime);
            }
        }
        false
    }

    /// Replaces the recorded guards of a function by those of its new code.
    pub fn record_tier2_deopt_sites(&mut self, key: FunctionKey, maps: &Vec<DeoptMap>, function: &VerifiedFunction)
        requires
            old(self).wf(),
        ensures
            final(self).wf(),
            final(self).runtime == old(self).runtime,
            final(self).dispositions@ == old(self).dispositions@,
            forall|e: SiteEntry| #[trigger]
                final(self).sites@.contains(e) <==> if e.runtime == old(self).runtime && e.key == key {
                    last_map(maps@, maps@.len(), e.guard) matches Some(pc) && e.pc == pc && e.opcode == opcode_at(
                        *function,
                        pc,
                    )
                } else {
                    old(self).sites@.contains(e)
                },
    {
        let mut kept: Vec<SiteEntry> = Vec::new();
        let runtime = self.runtime;
        let ghost before = self.sites@;
        let mut i: usize = 0;
        while i < self.sites.len()
            invariant
                i <= self.sites@.len(),
                self.sites@ == before,
                self.wf(),
                forall|e: SiteEntry| #[trigger]
                    kept@.contains(e) <==> !(e.runtime == runtime && e.key == key) && before.take(i as int).contains(e),
                unique_sites(kept@),
                self.runtime == runtime,
                self.dispositions@ == old(self).dispositions@,
            decreases self.sites@.len() - i,
        {
            let entry = self.sites[i];
            let ghost seen = before.take(i as int);
            let ghost kept0 = kept@;
            proof {
                assert(before.take(i + 1) =~= seen.push(entry));
                assert forall|e: SiteEntry| #[trigger]
                    seen.push(entry).contains(e) <==> seen.contains(e) || e == entry by {
                    push_contains(seen, entry, e);
                }
            }
            if entry.runtime != runtime || entry.key != key {
                proof {
                    assert forall|j: int| 0 <= j < kept@.len() implies !same_site(#[trigger] kept@[j], entry) by {
                        assert(kept@.contains(kept@[j]));
                        let k = choose|k: int| 0 <= k < seen.len() && seen[k] == kept@[j];
                        assert(self.sites@[k] == kept@[j]);
                    }
                    assert forall|e: SiteEntry| #[trigger]
                        kept0.push(entry).contains(e) <==> kept0.contains(e) || e == entry by {
                        push_contains(kept0, entry, e);
                    }
                }
                kept.push(entry);
            }
            i = i + 1;
        }
        assert(before.take(before.len() as int) =~= before);
        let mut m: usize = 0;
        while m < maps.len()
            invariant
                m <= maps@.len(),
                unique_sites(kept@),
                forall|e: SiteEntry| #[trigger]
                    kept@.contains(e) <==> if e.runtime == runtime && e.key == key {
                        last_map(maps@, m as nat, e.guard) matches Some(pc) && e.pc == pc && e.opcode == opcode_at(
                            *function,
                            pc,
                        )
                    } else {
                        before.contains(e)
                    },
                self.runtime == runtime,
                self.dispositions@ == old(self).dispositions@,
                self.wf(),
            decreases maps@.len() - m,
        {
            let map = maps[m];
            let entry = SiteEntry {
                runtime,
                key,
                guard: map.guard,
                pc: map.resume_pc,
                opcode: find_opcode(function, map.resume_pc),
            };
            put_site(&mut kept, entry);
            m = m + 1;
        }
        self.sites = kept;
    }
}

/// The runtime's dispositions, in the order of its functions.
pub fn test_tier2_compile_dispositions(diagnostics: &Tier2Diagnostics, runtime: u64) -> (r: Vec<DispositionEntry>)
    requires
        diagnostics.wf(),
    ensures
        sorted_dispositions(r@),
        forall|e: DispositionEntry| #[trigger]
            r@.contains(e) <==> e.runtime == runtime && diagnostics.recorded(e.runtime, e.key, e.disposition),
{
    let mut list: Vec<DispositionEntry> = Vec::new();
    let mut i: usize = 0;
    while i < diagnostics.dispositions.len()
        invariant
            i <= diagnostics.dispositions@.len(),
            diagnostics.wf(),
            sorted_dispositions(list@),
            forall|e: DispositionEntry| #[trigger]
                list@.contains(e) <==> e.runtime == runtime && diagnostics.dispositions@.take(i as int).contains(e),
        decreases diagnostics.dispositions@.len() - i,
    {
        let entry = diagnostics.dispositions[i];
        let ghost seen = diagnostics.dispositions@.take(i as int);
        proof {
            assert(diagnostics.dispositions@.take(i + 1) =~= seen.push(entry));
            assert forall|e: DispositionEntry| #[trigger]
                seen.push(entry).contains(e) <==> seen.contains(e) || e == entry by {
                push_contains(seen, entry, e);
            }
        }
        if entry.runtime == runtime {
            proof {
                assert forall|j: int| 0 <= j < list@.len() implies (#[trigger] list@[j]).key != entry.key by {
                    assert(list@.contains(list@[j]));
                    let k = choose|k: int| 0 <= k < seen.len() && seen[k] == list@[j];
                    assert(diagnostics.dispositions@[k] == list@[j]);
                }
            }
            insert_disposition(&mut list, entry);
        }
        i = i + 1;
    }
    assert(diagnostics.dispositions@.take(diagnostics.dispositions@.len() as int) =~= diagnostics.dispositions@);
    assert forall|e: DispositionEntry| #[trigger]
        list@.contains(e) <==> e.runtime == runtime && diagnostics.recorded(e.runtime, e.key, e.disposition) by {
        assert(e == DispositionEntry { runtime: e.runtime, key: e.key, disposition: e.disposition });
    }
    list
}

/// The runtime's guards, in the order of its functions and of their guards.
pub fn test_tier2_deopt_sites(diagnostics: &Tier2Diagnostics, runtime: u64) -> (r: Vec<SiteEntry>)
    requires
        diagnostics.wf(),
    ensures
        sorted_sites(r@),
        forall|e: SiteEntry| #[trigger] r@.contains(e) <==> e.runtime == runtime && diagnostics.sites@.contains(e),
{
    let mut list: Vec<SiteEntry> = Vec::new();
    let mut i: usize = 0;
    while i < diagnostics.sites.len()
        invariant
            i <= diagnostics.sites@.len(),
            diagnostics.wf(),
            sorted_sites(list@),
            forall|e: SiteEntry| #[trigger]
                list@.contains(e) <==> e.runtime == runtime && diagnostics.sites@.take(i as int).contains(e),
        decreases diagnostics.sites@.len() - i,
    {
        let entry = diagnostics.sites[i];
        let ghost seen = diagnostics.sites@.take(i as int);
        proof {
            assert(diagnostics.sites@.take(i + 1) =~= seen.push(entry));
            assert forall|e: SiteEntry| #[trigger]
                seen.push(entry).contains(e) <==> seen.contains(e) || e == entry by {
                push_contains(seen, entry, e);
            }
        }
        if entry.runtime == runtime {
            proof {
                assert forall|j: int|
                    0 <= j < list@.len() implies (#[trigger] list@[j]).key != entry.key || list@[j].guard
                    != entry.guard by {
                    assert(list@.contains(list@[j]));
                    let k = choose|k: int| 0 <= k < seen.len() && seen[k] == list@[j];
                    assert(diagnostics.sites@[k] == list@[j]);
                }
            }
            insert_site(&mut list, entry);
        }
        i = i + 1;
    }
    assert(diagnostics.sites@.take(diagnostics.sites@.len() as int) =~= diagnostics.sites@);
    list
}

pub open spec fn same_site(a: SiteEntry, b: SiteEntry) -> bool {
    a.runtime == b.runtime && a.key == b.key && a.guard == b.guard
}

pub open spec fn unique_sites(list: Seq<SiteEntry>) -> bool {
    forall|i: int, j: int| 0 <= i < j < list.len() ==> !same_site(#[trigger] list[i], #[trigger] list[j])
}

/// Where the last map of a guard resumes.
pub open spec fn last_map(maps: Seq<DeoptMap>, n: nat, guard: u32) -> Option<u32>
    decreases n,
{
    if n == 0 {
        None
    } else if maps[n - 1].guard == guard {
        Some(maps[n - 1].resume_pc)
    } else {
        last_map(maps, (n - 1) as nat, guard)
    }
}

/// The opcode of the instruction at `pc`.
pub open spec fn opcode_at(function: VerifiedFunction, pc: u32) -> u8 {
    match first_at(|i: int| function.instructions@[i].pc == pc, function.instructions@.len()) {
        Some(i) => if function.instructions@[i].bytes@.len() > 0 {
            function.instructions@[i].bytes@[0]
        } else {
            u8::MAX
        },
        None => u8::MAX,
    }
}

fn find_opcode(function: &VerifiedFunction, pc: u32) -> (r: u8)
    ensures
        r == opcode_at(*function, pc),
{
    let ghost f = |i: int| function.instructions@[i].pc == pc;
    let mut i: usize = 0;
    while i < function.instructions.len()
        invariant
            i <= function.instructions@.len(),
            f == (|i: int| function.instructions@[i].pc == pc),
            forall|k: int| 0 <= k < i ==> !#[trigger] f(k),
        decreases function.instructions@.len() - i,
    {
        if function.instructions[i].pc == pc {
            proof {
                first_at_is(f, function.instructions@.len(), i as int);
            }
            return if function.instructions[i].bytes.len() > 0 {
                function.instructions[i].bytes[0]
            } else {
                u8::MAX
            };
        }
        i = i + 1;
    }
    proof {
        first_at_none(f, function.instructions@.len());
    }
    u8::MAX
}

/// The stages that a lowering records by itself, inside a stage of the compilation.
pub open spec fn is_inner_stage(stage: Tier2CompileStage) -> bool {
    match stage {
        Tier2CompileStage::GenericCallBaseUnderflow
        | Tier2CompileStage::GenericCallPrefixUnknown
        | Tier2CompileStage::GenericCallOutputCapacity
        | Tier2CompileStage::GenericCallSemanticMissing
        | Tier2CompileStage::GenericCallFrameStateMissing
        | Tier2CompileStage::GenericCallShapeMismatch
        | Tier2CompileStage::GenericCallArityMismatch
        | Tier2CompileStage::GenericCallGuardMissing
        | Tier2CompileStage::GenericCallEmit
        | Tier2CompileStage::PropertyFeedbackMissing => true,
        _ => false,
    }
}

fn inner_stage(stage: Tier2CompileStage) -> (r: bool)
    ensures
        r == is_inner_stage(stage),
{
    matches!(
        stage,
        Tier2CompileStage::GenericCallBaseUnderflow
            | Tier2CompileStage::GenericCallPrefixUnknown
            | Tier2CompileStage::GenericCallOutputCapacity
            | Tier2CompileStage::GenericCallSemanticMissing
            | Tier2CompileStage::GenericCallFrameStateMissing
            | Tier2CompileStage::GenericCallShapeMismatch
            | Tier2CompileStage::GenericCallArityMismatch
            | Tier2CompileStage::GenericCallGuardMissing
            | Tier2CompileStage::GenericCallEmit
            | Tier2CompileStage::PropertyFeedbackMissing
    )
}

pub proof fn push_contains<A>(list: Seq<A>, x: A, e: A)
    ensures
        list.push(x).contains(e) <==> list.contains(e) || e == x,
{
    if list.contains(e) {
        let i = choose|i: int| 0 <= i < list.len() && list[i] == e;
        assert(list.push(x)[i] == e);
    }
    assert(list.push(x)[list.len() as int] == x);
}

pub proof fn insert_contains<A>(list: Seq<A>, at: int, x: A, e: A)
    requires
        0 <= at <= list.len(),
    ensures
        list.insert(at, x).contains(e) <==> list.contains(e) || e == x,
{
    let after = list.insert(at, x);
    if list.contains(e) {
        let i = choose|i: int| 0 <= i < list.len() && list[i] == e;
        assert(after[if i < at {
            i
        } else {
            i + 1
        }] == e);
    }
    assert(after[at] == x);
    if after.contains(e) && e != x {
        let i = choose|i: int| 0 <= i < after.len() && after[i] == e;
        assert(list[if i < at {
            i
        } else {
            i - 1
        }] == e);
    }
}

fn insert_disposition(list: &mut Vec<DispositionEntry>, entry: DispositionEntry)
    requires
        sorted_dispositions(old(list)@),
        forall|j: int| 0 <= j < old(list)@.len() ==> (#[trigger] old(list)@[j]).key != entry.key,
    ensures
        sorted_dispositions(final(list)@),
        forall|e: DispositionEntry| #[trigger] final(list)@.contains(e) <==> old(list)@.contains(e) || e == entry,
{
    let ghost before = list@;
    let mut at: usize = 0;
    while at < list.len() && (list[at].key.id < entry.key.id || list[at].key.id == entry.key.id && list[at].key.generation
        < entry.key.generation)
        invariant
            list@ == before,
            at <= list@.len(),
            forall|k: int| 0 <= k < at ==> key_before((#[trigger] list@[k]).key, entry.key),
        decreases list@.len() - at,
    {
        at = at + 1;
    }
    list.insert(at, entry);
    proof {
        if at < before.len() {
            assert(before[at as int].key != entry.key);
        }
        assert forall|e: DispositionEntry| #[trigger] list@.contains(e) <==> before.contains(e) || e == entry by {
            insert_contains(before, at as int, entry, e);
        }
    }
}

fn insert_site(list: &mut Vec<SiteEntry>, entry: SiteEntry)
    requires
        sorted_sites(old(list)@),
        forall|j: int|
            0 <= j < old(list)@.len()
                ==> (#[trigger] old(list)@[j]).key != entry.key || old(list)@[j].guard != entry.guard,
    ensures
        sorted_sites(final(list)@),
        forall|e: SiteEntry| #[trigger] final(list)@.contains(e) <==> old(list)@.contains(e) || e == entry,
{
    let ghost before = list@;
    let mut at: usize = 0;
    while at < list.len() && (list[at].key.id < entry.key.id || list[at].key.id == entry.key.id && (
    list[at].key.generation < entry.key.generation || list[at].key.generation == entry.key.generation && list[at].guard
        < entry.guard))
        invariant
            list@ == before,
            at <= list@.len(),
            forall|k: int| 0 <= k < at ==> site_before(#[trigger] list@[k], entry),
        decreases list@.len() - at,
    {
        at = at + 1;
    }
    list.insert(at, entry);
    proof {
        if at < before.len() {
            let next = before[at as int];
            assert(next.key != entry.key || next.guard != entry.guard);
            assert(site_before(entry, next));
        }
        assert forall|e: SiteEntry| #[trigger] list@.contains(e) <==> before.contains(e) || e == entry by {
            insert_contains(before, at as int, entry, e);
        }
    }
}

/// Puts a site in the place of one of the same guard, or at the end.
fn put_site(list: &mut Vec<SiteEntry>, entry: SiteEntry)
    requires
        unique_sites(old(list)@),
    ensures
        unique_sites(final(list)@),
        forall|e: SiteEntry| #[trigger]
            final(list)@.contains(e) <==> if same_site(e, entry) {
                e == entry
            } else {
                old(list)@.contains(e)
            },
{
    let ghost before = list@;
    let mut at: usize = 0;
    while at < list.len() && !(list[at].runtime == entry.runtime && list[at].key == entry.key && list[at].guard
        == entry.guard)
        invariant
            list@ == before,
            at <= list@.len(),
            forall|k: int| 0 <= k < at ==> !same_site(#[trigger] list@[k], entry),
        decreases list@.len() - at,
    {
        at = at + 1;
    }
    if at < list.len() {
        list.set(at, entry);
    } else {
        list.push(entry);
    }
    proof {
        assert(list@[at as int] == entry);
        assert forall|e: SiteEntry| #[trigger]
            list@.contains(e) <==> if same_site(e, entry) {
                e == entry
            } else {
                before.contains(e)
            } by {
            if before.contains(e) && !same_site(e, entry) {
                let j = choose|j: int| 0 <= j < before.len() && before[j] == e;
                assert(list@[j] == e);
            }
            if list@.contains(e) {
                let j = choose|j: int| 0 <= j < list@.len() && list@[j] == e;
                if j != at {
                    assert(before[j] == e);
                }
            }
        }
    }
}

/// The runtime that was being compiled for before a scope was entered.
#[derive(Debug)]
pub struct Tier2DiagnosticScope {
    previous: u64,
}

impl Tier2DiagnosticScope {
    pub closed spec fn previous(&self) -> u64 {
        self.previous
    }

    /// Records follow the request's runtime until the scope is left.
    pub fn enter(diagnostics: &mut Tier2Diagnostics, runtime: u64) -> (r: Self)
        ensures
            r.previous() == old(diagnostics).runtime,
            *final(diagnostics) == (Tier2Diagnostics { runtime, ..*old(diagnostics) }),
    {
        let previous = diagnostics.runtime;
        diagnostics.runtime = runtime;
        Tier2DiagnosticScope { previous }
    }

    /// Restores the runtime of the surrounding scope.
    pub fn leave(self, diagnostics: &mut Tier2Diagnostics)
        ensures
            *final(diagnostics) == (Tier2Diagnostics { runtime: self.previous(), ..*old(diagnostics) }),
    {
        diagnostics.runtime = self.previous;
    }
}

/// The runtime after a scope was entered and left is the one before, whatever
/// was recorded in between.
pub proof fn scopes_restore_the_runtime(
    scope: Tier2DiagnosticScope,
    before: Tier2Diagnostics,
    inside: Tier2Diagnostics,
    after: Tier2Diagnostics,
)
    requires
        scope.previous() == before.runtime,
        after == (Tier2Diagnostics { runtime: scope.previous(), ..inside }),
    ensures
        after.runtime == before.runtime,
        after.dispositions == inside.dispositions,
        after.sites == inside.sites,
{
}

} // verus!
