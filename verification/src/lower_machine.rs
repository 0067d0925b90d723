//! Lowering of a whole function.
use crate::array_plan::ArrayPlan;
use crate::call_guards::HoistedCallGuards;
use crate::code::copy_types;
use crate::code::kept;
use crate::code::kept_instructions;
use crate::code::Code;
use crate::code::Inst;
use crate::code::Status;
use crate::code::Ty;
use crate::code::World;
use crate::control::CompileFailure;
use crate::element_code::storage_known;
use crate::elements::GuardedElementSource;
use crate::entry_guards::emit_opt_numeric_guard;
use crate::entry_guards::numeric_guard_post;
use crate::entry_guards::SlotRequirements;
use crate::frame::runs_on;
use crate::frame::OptEnv;
use crate::frame::RuntimeAbi;
use crate::frame::MAX_SLOTS;
use crate::guard_code::arguments_known;
use crate::guard_code::guards_declared;
use crate::guard_code::probed;
use crate::guard_code::state_wf;
use crate::guard_code::unset_vars;
use crate::inline_frames::FrameRegion;
use crate::inline_frames::InlineApi;
use crate::inline_regions::regions_fit;
use crate::inline_regions::regions_wf;
use crate::ir::FrameShape;
use crate::ir::FrameSlot;
use crate::ir::OptimizedBlock;
use crate::ir::OptimizedIr;
use crate::lower_block::block_lowered;
use crate::lower_block::block_refused;
use crate::lower_block::loop_source;
use crate::lower_block::sources_known;
use crate::lower_block::BlockTrace;
use crate::lower_calls::SemanticCall;
use crate::lower_values::OptVars;
use crate::machine::Machine;
use crate::prologue::blocks_apart;
use crate::prologue::blocks_declared;
use crate::prologue::budget_filled;
use crate::prologue::clear_slots;
use crate::prologue::declare_blocks;
use crate::prologue::declare_phis;
use crate::prologue::declare_slots;
use crate::prologue::declared;
use crate::prologue::fill_budget;
use crate::prologue::frame_opened;
use crate::prologue::initials_fit;
use crate::prologue::initials_set;
use crate::prologue::open_frame;
use crate::prologue::phis_apart;
use crate::prologue::phis_declared;
use crate::prologue::read_slots;
use crate::prologue::set_initials;
use crate::prologue::slots_cleared;
use crate::prologue::slots_declared;
use crate::prologue::slots_read;
use crate::prologue::FrameIds;
use crate::property_cache::blank_entries;
use crate::property_cache::cache_declared;
use crate::property_cache::PropertyAccessPlan;
use crate::property_cache::PropertyBoundary;
use crate::property_cache::PropertyCache;
use crate::property_cache::PropertyCandidate;
use crate::provenance::OptProvenance;
use crate::runtime::SidePathProfile;
use crate::scalar::block_at;
use crate::scalar::find_block;
use crate::scalar::inputs_at;
use crate::scalar::OperandMode;
use crate::scalar::PhiEdge;
use crate::scalar_ops::ScalarNode;
use crate::specialization::NumericSpecialization;
use crate::specialized_calls::DirectCallSite;
use crate::stages::Refusal;
use std::collections::BTreeMap;
use std::collections::BTreeSet;
use crate::lower_node::unstaged;
use crate::typing::steady;
use crate::typing::closing;
use crate::typing::calm;
use crate::assemble::Known;
use crate::frame_typing::pair_held;
use crate::frame_typing::slot_named;
use crate::frame_typing::slots_named;
use crate::frame_typing::cached_named;
use crate::frame_typing::cache_named;
use crate::frame_typing::phis_named;
use crate::frame_typing::guards_named;
use crate::frame_typing::source_held;
use crate::frame_typing::sources_held;
use crate::frame_typing::word_types;
use crate::typing::live;
use crate::typing::shut;
use crate::typing::rewritten;
use crate::typing::kind_of;
use crate::assemble::assembles;
use crate::prologue::machine_params;
use crate::clif::Passed;
use vstd::prelude::*;

verus! {

broadcast use {
    crate::typing::group_typing,
    crate::frame_typing::group_frame,
    vstd::std_specs::btree::group_btree_axioms,
    crate::exits::own_failures,
};

/// The parameters and the result of a helper.
#[derive(Debug)]
pub struct HelperSignature {
    pub params: Vec<Ty>,
    pub result: Option<Ty>,
}

/// The helper takes the frame and so many words, if there is one, and answers a
/// status.
pub open spec fn takes_words(helpers: Seq<HelperSignature>, helper: usize, n: nat) -> bool {
    helper < helpers.len() ==> helpers[helper as int].params@ == word_types(n) && helpers[helper as int].result == Some(
        Ty::I32,
    )
}

/// The helpers have the signatures that they are called with.
pub open spec fn helpers_fit(abi: RuntimeAbi, helpers: Seq<HelperSignature>) -> bool {
    &&& takes_words(helpers, abi.helper_free, 2)
    &&& takes_words(helpers, abi.helper_materialize_owner, 4)
    &&& takes_words(helpers, abi.helper_poll, 0)
    &&& takes_words(helpers, abi.helper_get_property, 4)
    &&& takes_words(helpers, abi.helper_call, 6)
    &&& takes_words(helpers, abi.helper_dup, 3)
    &&& takes_words(helpers, abi.helper_get_global, 3)
    &&& takes_words(helpers, abi.helper_set_property, 4)
    &&& takes_words(helpers, abi.helper_to_bool, 3)
    &&& takes_words(helpers, abi.helper_shape_guard, 6)
}

/// Every block has a program counter of its own.
pub open spec fn blocks_told_apart(ir: OptimizedIr) -> bool {
    forall|i: int, j: int|
        0 <= i < j < ir.blocks@.len() ==> (#[trigger] ir.blocks@[i]).start_pc != (#[trigger] ir.blocks@[j]).start_pc
}

/// What the lowering of a function is made from: the function, what was
/// observed of it, and what the analyses say.
pub struct MachineInput<'a> {
    pub ir: &'a OptimizedIr,
    pub specialization: &'a NumericSpecialization,
    pub abi: &'a RuntimeAbi,
    pub api: &'a InlineApi,
    pub helpers: &'a Vec<HelperSignature>,
    pub shape: FrameShape,
    pub stack_slots: usize,
    pub entry_guard: u32,
    pub int32_loop: bool,
    pub amortized_poll: bool,
    pub defer_locals: bool,
    pub side_path: Option<SidePathProfile>,
    pub owned_locals: &'a Vec<bool>,
    /// What the operand stack aliases where each block begins.
    pub entries: &'a BTreeMap<u32, Vec<OptProvenance>>,
    pub proven: &'a Vec<Option<OperandMode>>,
    pub scalar_nodes: &'a Vec<ScalarNode>,
    pub definitions: &'a Vec<Vec<(FrameSlot, usize)>>,
    pub calls: &'a Vec<Option<SemanticCall>>,
    pub edges: &'a Vec<PhiEdge>,
    pub direct_calls: &'a BTreeMap<u32, DirectCallSite>,
    pub bounded: &'a BTreeSet<u32>,
    pub candidates: &'a Vec<PropertyCandidate>,
    pub accesses: &'a Vec<Option<PropertyAccessPlan>>,
    pub boundaries: &'a Vec<PropertyBoundary>,
    pub forwarded: &'a BTreeSet<u32>,
    pub arrays: &'a ArrayPlan,
    pub hoisted: &'a HoistedCallGuards,
    pub regions: &'a Vec<FrameRegion>,
}

impl<'a> MachineInput<'a> {
    /// The tables are those of the function.
    pub open spec fn wf(self) -> bool {
        &&& self.ir.wf()
        &&& self.stack_slots < MAX_SLOTS
        &&& self.owned_locals@.len() == self.shape.locals
        &&& self.scalar_nodes@.len() == self.ir.nodes@.len()
        &&& self.definitions@.len() == self.ir.nodes@.len()
        &&& self.calls@.len() == self.ir.nodes@.len()
        &&& self.accesses@.len() == self.ir.nodes@.len()
        &&& self.boundaries@.len() == self.ir.nodes@.len()
        &&& regions_wf(self.regions@)
        &&& self.int32_loop ==> self.arrays.hoists@.len() == 0
    }

    pub fn is_wf(&self) -> (r: bool)
        ensures
            r == self.wf(),
    {
        let nodes = self.ir.nodes.len();
        self.ir.is_wf() && self.stack_slots < MAX_SLOTS && self.owned_locals.len() == self.shape.locals as usize
            && self.scalar_nodes.len() == nodes && self.definitions.len() == nodes && self.calls.len() == nodes
            && self.accesses.len() == nodes && self.boundaries.len() == nodes && regions_fit(self.regions) && (
        !self.int32_loop || self.arrays.hoists.len() == 0)
    }

    /// The machine lowers this input.
    pub open spec fn drives(self, mx: Machine<'_>) -> bool {
        &&& mx.ir == self.ir
        &&& mx.specialization == self.specialization
        &&& mx.owned_locals == self.owned_locals
        &&& mx.defer_locals == self.defer_locals
        &&& mx.amortized_poll == self.amortized_poll
        &&& mx.side_path == self.side_path
        &&& mx.proven == self.proven
        &&& mx.scalar_nodes == self.scalar_nodes
        &&& mx.definitions == self.definitions
        &&& mx.calls == self.calls
        &&& mx.edges == self.edges
        &&& mx.direct_calls == self.direct_calls
        &&& mx.bounded == self.bounded
        &&& mx.accesses == self.accesses
        &&& mx.boundaries == self.boundaries
        &&& mx.forwarded == self.forwarded
        &&& mx.arrays == self.arrays
        &&& mx.hoisted == self.hoisted
        &&& mx.api == self.api
        &&& mx.regions == self.regions
        &&& mx.entry_guard == self.entry_guard
        &&& mx.cache.candidates@ == self.candidates@
        &&& mx.env.cache@ == mx.cache.entries@
        &&& mx.env.abi == self.abi
        &&& mx.env.int32_loop == self.int32_loop
        &&& mx.env.arguments@.len() == self.shape.arguments
        &&& mx.env.locals@.len() == self.shape.locals
        &&& mx.env.stack@.len() == self.stack_slots
        &&& mx.env.helper_signatures@.len() == self.helpers@.len()
        &&& mx.env.payload_type == if self.int32_loop {
            Ty::I32
        } else {
            Ty::I64
        }
        &&& phis_declared(*self.ir, mx.phis@, self.ir.blocks@.len() as int)
        &&& blocks_declared(*self.ir, mx.blocks@, self.ir.blocks@.len() as int)
        &&& state_wf(self.hoisted.targets@, *mx.guards)
        &&& mx.cache.wf()
    }

    /// The lowered code is taken by the assembler: slots hold tagged values, the
    /// helpers have the signatures that they are called with, and no two blocks
    /// start at one program counter.
    pub open spec fn assemblable(self) -> bool {
        !self.int32_loop && helpers_fit(*self.abi, self.helpers@) && blocks_told_apart(*self.ir)
    }

    /// The side path that the entry guard may take.
    pub open spec fn entry_side_path(self) -> Option<SidePathProfile> {
        match self.side_path {
            Some(profile) => if profile.guard == self.entry_guard {
                Some(profile)
            } else {
                None
            },
            None => None,
        }
    }
}

/// The promoted fields have variables, and none is valid.
pub open spec fn cache_blank(cache: PropertyCache, a: Code, b: Code) -> bool {
    &&& a.len() <= b.len()
    &&& forall|w: World|
        #![trigger b.at(w)]
        match a.at(w) {
            Status::Run(s) => runs_on(
                b.at(w),
                s,
                a.len(),
                blank_entries(s.vars, cache.entries@, cache.entries@.len()),
                s.trace,
            ),
            st => b.at(w) == st,
        }
}

/// The call targets have variables, and none is valid.
pub open spec fn targets_unset(mx: Machine<'_>, a: Code, b: Code) -> bool {
    &&& a.len() <= b.len()
    &&& forall|w: World|
        #![trigger b.at(w)]
        match a.at(w) {
            Status::Run(s) => runs_on(
                b.at(w),
                s,
                a.len(),
                unset_vars(s.vars, mx.guards.valid@, mx.guards.used@, mx.hoisted.targets@.len()),
                s.trace,
            ),
            st => b.at(w) == st,
        }
}

/// The call targets are looked at.
pub open spec fn targets_probed(mx: Machine<'_>, a: Code, b: Code) -> bool {
    &&& a.len() <= b.len()
    &&& forall|w: World|
        #![trigger b.at(w)]
        match a.at(w) {
            Status::Run(s) => {
                let v = probed(*mx.env, mx.hoisted.targets@, *mx.guards, s.vars, s.trace, mx.hoisted.targets@.len(), w);
                runs_on(b.at(w), s, a.len(), v.vars, v.trace)
            },
            st => b.at(w) == st,
        }
}

/// What is required of the arguments at the function's entry.
pub open spec fn entry_requirements<'a>(input: MachineInput<'a>, none: &'a Vec<bool>) -> SlotRequirements<'a> {
    SlotRequirements {
        argument_count: input.shape.arguments as usize,
        owned_locals: none,
        representations: &input.specialization.arguments,
        representation: input.specialization.entry,
    }
}

/// The entry is checked: control is at the first block, or has left.
pub open spec fn entry_checked(input: MachineInput<'_>, mx: Machine<'_>, a: Code, b: Code) -> bool {
    &&& a.len() <= b.len()
    &&& exists|none: Vec<bool>|
        #![trigger entry_requirements(input, &none)]
        none@.len() == 0 && forall|w: World|
            #![trigger b.at(w)]
            numeric_guard_post(
                *mx.env,
                a.at(w),
                b.at(w),
                a.len(),
                entry_requirements(input, &none),
                mx.env.arguments@,
                Seq::empty(),
                input.entry_guard,
                0,
                mx.blocks@[0],
                input.entry_side_path(),
                w,
            )
}

/// Every helper has its signature, made between two points of the code.
pub open spec fn helpers_declared(signatures: Seq<usize>, helpers: Seq<HelperSignature>, lo: int, hi: int, insts: Seq<Inst>) -> bool {
    &&& hi <= insts.len()
    &&& forall|k: int|
        0 <= k < signatures.len() ==> helper_declared(#[trigger] signatures[k], helpers[k], lo, hi, insts)
}

pub open spec fn helper_declared(signature: usize, helper: HelperSignature, lo: int, hi: int, insts: Seq<Inst>) -> bool {
    &&& lo <= signature < hi
    &&& insts[signature as int] matches Inst::NewSignature { params, result }
    &&& params@ == helper.params@
    &&& result == helper.result
}

/// The stack slots were made, each on its own: for the receiver and the answer of
/// an array query, for the answer of a direct call, and for the poll budget.
pub open spec fn memory_declared(input: MachineInput<'_>, mx: Machine<'_>, lo: int, hi: int, insts: Seq<Inst>) -> bool {
    let env = *mx.env;
    &&& lo <= env.query_receiver < env.query_metadata < env.call_output < mx.budget < hi <= insts.len()
    &&& insts[env.query_receiver as int] == (Inst::NewSlot { size: 16, align_shift: 3 })
    &&& insts[env.query_metadata as int] == (Inst::NewSlot { size: input.abi.elements.metadata_size, align_shift: 3 })
    &&& insts[env.call_output as int] == (Inst::NewSlot { size: 16, align_shift: 3 })
    &&& insts[mx.budget as int] == (Inst::NewSlot { size: 8, align_shift: 3 })
}

/// What the machine works with was made for it: between each two marks in the
/// code stand the things of one kind.
pub open spec fn machine_wired(input: MachineInput<'_>, mx: Machine<'_>, marks: Seq<int>, code: Code) -> bool {
    let env = *mx.env;
    let insts = code.insts@;
    &&& marks.len() == 11
    &&& forall|i: int, j: int| 0 <= i <= j < marks.len() ==> #[trigger] marks[i] <= #[trigger] marks[j]
    &&& helpers_declared(env.helper_signatures@, input.helpers@, marks[0], marks[1], insts)
    &&& slots_declared(env.arguments@, env.payload_type, marks[1], marks[2], insts)
    &&& slots_declared(env.locals@, env.payload_type, marks[2], marks[3], insts)
    &&& slots_declared(env.stack@, env.payload_type, marks[3], marks[4], insts)
    &&& phis_apart(mx.phis@, env.payload_type, marks[4], marks[5], insts)
    &&& memory_declared(input, mx, marks[5], marks[6], insts)
    &&& cache_declared(mx.cache.entries@, marks[6], marks[7], insts)
    &&& guards_declared(mx.guards.valid@, mx.guards.used@, marks[7], marks[8], insts)
    &&& blocks_apart(mx.blocks@, marks[9], marks[10], insts)
}

/// Slots that were declared are named.
proof fn declared_slots_are_named(slots: Seq<OptVars>, ty: Ty, lo: int, hi: int, code: Code)
    requires
        slots_declared(slots, ty, lo, hi, code.insts@),
    ensures
        slots_named(code, slots, ty),
{
    reveal(Code::kind);
    reveal(slots_named);
}

/// What the frame names stands in the code.
proof fn declared_frame_is_typed(input: MachineInput<'_>, env: OptEnv<'_>, marks: Seq<int>, code: Code)
    requires
        input.assemblable(),
        env.abi == input.abi,
        !env.int32_loop,
        env.payload_type == Ty::I64,
        env.helper_signatures@.len() == input.helpers@.len(),
        marks.len() >= 8,
        helpers_declared(env.helper_signatures@, input.helpers@, marks[0], marks[1], code.insts@),
        slots_declared(env.arguments@, Ty::I64, marks[1], marks[2], code.insts@),
        slots_declared(env.locals@, Ty::I64, marks[2], marks[3], code.insts@),
        slots_declared(env.stack@, Ty::I64, marks[3], marks[4], code.insts@),
        cache_declared(env.cache@, marks[6], marks[7], code.insts@),
        code.slotted(env.query_receiver),
        code.slotted(env.query_metadata),
        code.slotted(env.call_output),
        code.holds(env.frame, Ty::I64),
        code.holds(env.sret, Ty::I64),
        code.holds(env.arg_buf, Ty::I64),
        code.holds(env.var_buf, Ty::I64),
        code.holds(env.stack_base, Ty::I64),
    ensures
        env.typed(code),
{
    declared_slots_are_named(env.arguments@, Ty::I64, marks[1], marks[2], code);
    declared_slots_are_named(env.locals@, Ty::I64, marks[2], marks[3], code);
    declared_slots_are_named(env.stack@, Ty::I64, marks[3], marks[4], code);
    reveal(Code::kind);
    reveal(OptEnv::typed);
    assert(cache_named(code, env.cache@)) by {
        reveal(cache_named);
    }
    assert forall|helper: usize, n: nat| #[trigger] takes_words(input.helpers@, helper, n) implies env.takes(
        code,
        helper,
        n,
    ) by {
        if helper < env.helper_signatures@.len() {
            assert(helper_declared(
                env.helper_signatures@[helper as int],
                input.helpers@[helper as int],
                marks[0],
                marks[1],
                code.insts@,
            ));
        }
    }
    assert(env.helpers_take(code));
}

/// What the machine names stands in the code.
proof fn wired_machine_is_typed(input: MachineInput<'_>, mx: Machine<'_>, marks: Seq<int>, code: Code)
    requires
        machine_wired(input, mx, marks, code),
        mx.env.payload_type == Ty::I64,
        mx.env.cache@ == mx.cache.entries@,
        mx.env.typed(code),
    ensures
        mx.typed(code),
{
    reveal(Code::kind);
    reveal(Machine::typed);
    assert(phis_named(code, mx.phis@, Ty::I64)) by {
        reveal(phis_named);
    }
    assert(guards_named(code, mx.guards.valid@, mx.guards.used@)) by {
        reveal(guards_named);
        assert forall|i: int| 0 <= i < mx.guards.used@.len() implies code.names(#[trigger] mx.guards.used@[i], Ty::I8) by {
            assert(crate::guard_code::guard_declared(
                mx.guards.valid@[i],
                mx.guards.used@[i],
                marks[7],
                marks[8],
                code.insts@,
            ));
        }
    }
}

/// More code behind it changes nothing of that.
proof fn wired_on(input: MachineInput<'_>, mx: Machine<'_>, marks: Seq<int>, a: Code, b: Code)
    requires
        machine_wired(input, mx, marks, a),
        kept(a, b),
    ensures
        machine_wired(input, mx, marks, b),
{
    kept_instructions(a, b);
    assert(helpers_declared(mx.env.helper_signatures@, input.helpers@, marks[0], marks[1], b.insts@));
    assert(slots_declared(mx.env.arguments@, mx.env.payload_type, marks[1], marks[2], b.insts@));
    assert(slots_declared(mx.env.locals@, mx.env.payload_type, marks[2], marks[3], b.insts@));
    assert(slots_declared(mx.env.stack@, mx.env.payload_type, marks[3], marks[4], b.insts@));
    assert(phis_apart(mx.phis@, mx.env.payload_type, marks[4], marks[5], b.insts@));
    assert(cache_declared(mx.cache.entries@, marks[6], marks[7], b.insts@));
    assert(guards_declared(mx.guards.valid@, mx.guards.used@, marks[7], marks[8], b.insts@));
    assert(blocks_apart(mx.blocks@, marks[9], marks[10], b.insts@));
}

/// No variable of the one slot is one of the other.
pub open spec fn apart(a: OptVars, b: OptVars) -> bool {
    a.payload != b.payload && a.payload != b.tag && a.tag != b.payload && a.tag != b.tag
}

/// In the code of a function no two slots share a variable: neither two
/// arguments, locals, operands or values that enter blocks, nor one of them with
/// a promoted field.
pub proof fn slots_have_variables_of_their_own(input: MachineInput<'_>, mx: Machine<'_>, t: MachineTrace, code: Code)
    requires
        machine_lowered(input, mx, t, code),
    ensures
        forall|i: int, j: int|
            0 <= i < j < mx.env.arguments@.len()
                ==> apart(#[trigger] mx.env.arguments@[i], #[trigger] mx.env.arguments@[j]),
        forall|i: int, j: int|
            0 <= i < j < mx.env.locals@.len() ==> apart(#[trigger] mx.env.locals@[i], #[trigger] mx.env.locals@[j]),
        forall|i: int, j: int|
            0 <= i < j < mx.env.stack@.len() ==> apart(#[trigger] mx.env.stack@[i], #[trigger] mx.env.stack@[j]),
        forall|i: int, j: int|
            0 <= i < mx.env.arguments@.len() && 0 <= j < mx.env.locals@.len() ==> apart(
                #[trigger] mx.env.arguments@[i],
                #[trigger] mx.env.locals@[j],
            ),
        forall|i: int, j: int|
            0 <= i < mx.env.arguments@.len() && 0 <= j < mx.env.stack@.len() ==> apart(
                #[trigger] mx.env.arguments@[i],
                #[trigger] mx.env.stack@[j],
            ),
        forall|i: int, j: int|
            0 <= i < mx.env.locals@.len() && 0 <= j < mx.env.stack@.len() ==> apart(
                #[trigger] mx.env.locals@[i],
                #[trigger] mx.env.stack@[j],
            ),
        forall|a: usize, b: usize| #[trigger]
            mx.phis@.contains_key(a) && #[trigger] mx.phis@.contains_key(b) && a != b
                ==> apart(mx.phis@[a], mx.phis@[b]),
        forall|a: usize, i: int|
            #[trigger] mx.phis@.contains_key(a) && 0 <= i < mx.env.stack@.len() ==> apart(
                mx.phis@[a],
                #[trigger] mx.env.stack@[i],
            ),
        forall|k: int, i: int|
            0 <= k < mx.cache.entries@.len() && 0 <= i < mx.env.stack@.len() ==> apart(
                (#[trigger] mx.cache.entries@[k]).value,
                #[trigger] mx.env.stack@[i],
            ),
{
    let m = t.marks;
    assert(m[1] <= m[2] && m[2] <= m[3] && m[3] <= m[4] && m[4] <= m[5] && m[4] <= m[6]);
}

/// The code before the first block, part by part.
pub open spec fn prologue_lowered(input: MachineInput<'_>, mx: Machine<'_>, ids: FrameIds, c: Seq<Code>) -> bool {
    let env = *mx.env;
    &&& c.len() == 12
    &&& env.frame == ids.frame && env.sret == ids.sret && env.arg_buf == ids.arg_buf && env.var_buf == ids.var_buf
        && env.stack_base == ids.stack_base
    &&& frame_opened(*input.abi, ids, c[0])
    &&& declared(c[0], c[1])
    &&& cache_blank(*mx.cache, c[1], c[2])
    &&& targets_unset(mx, c[2], c[3])
    &&& budget_filled(mx.budget, c[3], c[4])
    &&& slots_read(env.int32_loop, env.arg_buf, env.arguments@, env.arguments@.len(), c[4], c[5])
    &&& if env.int32_loop {
        slots_cleared(env.locals@, env.locals@.len(), c[5], c[6])
    } else {
        slots_read(false, env.var_buf, env.locals@, env.locals@.len(), c[5], c[6])
    }
    &&& slots_cleared(env.stack@, env.stack@.len(), c[6], c[7])
    &&& targets_probed(mx, c[7], c[8])
    &&& declared(c[8], c[9])
    &&& initials_set(
        *mx.ir,
        mx.edges@,
        mx.phis@,
        env.arguments@,
        env.locals@,
        inputs_at(*mx.ir, 0),
        inputs_at(*mx.ir, 0).len(),
        c[9],
        c[10],
    )
    &&& entry_checked(input, mx, c[10], c[11])
}

/// Why the code before the first block cannot be lowered.
pub open spec fn prologue_refused(mx: Machine<'_>) -> bool {
    ||| !arguments_known(*mx.env, mx.hoisted.targets@, mx.hoisted.targets@.len() as int)
    ||| block_at(*mx.ir, 0) is None
    ||| !initials_fit(
        *mx.ir,
        mx.edges@,
        mx.phis@,
        mx.env.arguments@,
        mx.env.locals@,
        inputs_at(*mx.ir, 0),
        inputs_at(*mx.ir, 0).len() as int,
    )
}

/// How often the block leads to the block at `pc`, by its first `k` successors.
pub open spec fn hits(successors: Seq<u32>, pc: u32, k: nat) -> nat
    decreases k,
{
    if k == 0 {
        0
    } else {
        hits(successors, pc, (k - 1) as nat) + if successors[k - 1] == pc {
            1nat
        } else {
            0
        }
    }
}

/// How many edges of the first `n` blocks lead to the block at `pc`.
pub open spec fn arrivals(ir: OptimizedIr, pc: u32, n: nat) -> nat
    decreases n,
{
    if n == 0 {
        0
    } else {
        arrivals(ir, pc, (n - 1) as nat) + hits(
            ir.blocks@[n - 1].successors@,
            pc,
            ir.blocks@[n - 1].successors@.len(),
        )
    }
}

/// The block at `from` is the one from which control comes to the block at `pc`.
pub open spec fn only_from(ir: OptimizedIr, pc: u32, from: u32) -> bool {
    arrivals(ir, pc, ir.blocks@.len()) == 1 && exists|b: int|
        #![trigger ir.blocks@[b]]
        0 <= b < ir.blocks@.len() && ir.blocks@[b].start_pc == from && hits(
            ir.blocks@[b].successors@,
            pc,
            ir.blocks@[b].successors@.len(),
        ) > 0
}

/// The array storage that is known where a block begins: what was checked on
/// the way into it, or what its only predecessor left behind of an argument.
pub open spec fn carried_source(
    ir: OptimizedIr,
    block: OptimizedBlock,
    sources: Map<u32, GuardedElementSource>,
    left: Option<GuardedElementSource>,
) -> Option<GuardedElementSource> {
    match loop_source(sources, block) {
        Some(source) => Some(source),
        None => match left {
            Some(source) => if source.block_pc == block.start_pc || source.provenance is Argument && only_from(
                ir,
                block.start_pc,
                source.block_pc,
            ) {
                Some(source)
            } else {
                None
            },
            None => None,
        },
    }
}

/// Everything that was emitted, from part to part.
pub struct MachineTrace {
    pub ids: FrameIds,
    /// Where in the code before the first block its parts were declared.
    pub marks: Seq<int>,
    /// The code before the first block.
    pub parts: Seq<Code>,
    /// The code before each block, and behind the last.
    pub codes: Seq<Code>,
    pub sources: Seq<Map<u32, GuardedElementSource>>,
    pub blocks: Seq<BlockTrace>,
}

impl MachineTrace {
    /// The array storage that is known behind block `i - 1`.
    pub open spec fn left_behind(self, i: int) -> Option<GuardedElementSource> {
        if i == 0 {
            None
        } else {
            self.blocks[i - 1].stages.last().model.source
        }
    }
}

/// Block `i` is lowered behind the ones before it.
pub open spec fn machine_step(input: MachineInput<'_>, mx: Machine<'_>, t: MachineTrace, i: int) -> bool {
    let block = input.ir.blocks@[i];
    &&& input.entries@.contains_key(block.start_pc)
    &&& block_lowered(
        mx,
        block,
        input.entries@[block.start_pc]@,
        carried_source(*input.ir, block, t.sources[i], t.left_behind(i)),
        t.sources[i],
        t.sources[i + 1],
        t.codes[i],
        t.codes[i + 1],
        t.blocks[i],
    )
}

/// The first `n` blocks are lowered.
pub open spec fn machine_begun(input: MachineInput<'_>, mx: Machine<'_>, t: MachineTrace, n: int) -> bool {
    &&& input.drives(mx)
    &&& 0 <= n <= input.ir.blocks@.len()
    &&& prologue_lowered(input, mx, t.ids, t.parts)
    &&& t.codes.len() == n + 1
    &&& t.sources.len() == n + 1
    &&& t.blocks.len() == n
    &&& t.codes[0] == t.parts[11]
    &&& t.sources[0] == Map::<u32, GuardedElementSource>::empty()
    &&& machine_wired(input, mx, t.marks, t.codes[n])
    &&& forall|i: int| 0 <= i < n ==> kept(#[trigger] t.codes[i], t.codes[i + 1])
    &&& forall|i: int| 0 <= i < n ==> #[trigger] machine_step(input, mx, t, i)
}

pub open spec fn machine_lowered(input: MachineInput<'_>, mx: Machine<'_>, t: MachineTrace, code: Code) -> bool {
    let n = input.ir.blocks@.len() as int;
    machine_begun(input, mx, t, n) && t.codes[n] == code
}

/// Block `n` cannot be lowered behind the ones before it, and why.
pub open spec fn machine_stuck(input: MachineInput<'_>, mx: Machine<'_>, t: MachineTrace, n: int, refusal: Refusal) -> bool {
    let block = input.ir.blocks@[n];
    &&& n < input.ir.blocks@.len()
    &&& machine_begun(input, mx, t, n)
    &&& if input.entries@.contains_key(block.start_pc) {
        block_refused(
            mx,
            block,
            input.entries@[block.start_pc]@,
            carried_source(*input.ir, block, t.sources[n], t.left_behind(n)),
            t.sources[n],
            t.codes[n],
            refusal,
        )
    } else {
        refusal == unstaged(CompileFailure::InvalidArtifact)
    }
}

/// Why a function is not lowered.
pub open spec fn machine_refused(input: MachineInput<'_>, refusal: Refusal) -> bool {
    ||| refusal == unstaged(CompileFailure::InvalidArtifact) && exists|mx: Machine<'_>| #[trigger] input.drives(mx) && prologue_refused(mx)
    ||| exists|mx: Machine<'_>, t: MachineTrace, n: int| #[trigger] machine_stuck(input, mx, t, n, refusal)
}

fn count_hits(successors: &Vec<u32>, pc: u32) -> (r: usize)
    ensures
        hits(successors@, pc, successors@.len()) == r,
{
    let mut count: usize = 0;
    let mut k: usize = 0;
    while k < successors.len()
        invariant
            k <= successors@.len(),
            count <= k,
            count == hits(successors@, pc, k as nat),
        decreases successors@.len() - k,
    {
        if successors[k] == pc {
            count = count + 1;
        }
        k = k + 1;
    }
    count
}

fn find_only_from(ir: &OptimizedIr, pc: u32, from: u32) -> (r: bool)
    ensures
        r == only_from(*ir, pc, from),
{
    let mut many = false;
    let mut once = false;
    let mut fits = false;
    let mut b: usize = 0;
    while b < ir.blocks.len()
        invariant
            b <= ir.blocks@.len(),
            many == (arrivals(*ir, pc, b as nat) > 1),
            once == (arrivals(*ir, pc, b as nat) == 1),
            fits ==> exists|c: int|
                #![trigger ir.blocks@[c]]
                0 <= c < b && ir.blocks@[c].start_pc == from && hits(
                    ir.blocks@[c].successors@,
                    pc,
                    ir.blocks@[c].successors@.len(),
                ) > 0,
            !fits ==> forall|c: int|
                #![trigger ir.blocks@[c]]
                0 <= c < b && ir.blocks@[c].start_pc == from ==> hits(
                    ir.blocks@[c].successors@,
                    pc,
                    ir.blocks@[c].successors@.len(),
                ) == 0,
        decreases ir.blocks@.len() - b,
    {
        let count = count_hits(&ir.blocks[b].successors, pc);
        assert(ir.blocks@[b as int].successors@.len() == ir.blocks@[b as int].successors@.len());
        if count > 0 {
            if ir.blocks[b].start_pc == from {
                fits = true;
            }
            if many || once || count > 1 {
                many = true;
                once = false;
            } else {
                once = true;
            }
        }
        b = b + 1;
    }
    once && fits
}

fn find_carried(
    ir: &OptimizedIr,
    block: &OptimizedBlock,
    sources: &BTreeMap<u32, GuardedElementSource>,
    left: Option<GuardedElementSource>,
) -> (r: Option<GuardedElementSource>)
    ensures
        r == carried_source(*ir, *block, sources@, left),
{
    match sources.get(&block.start_pc) {
        Some(source) => Some(*source),
        None => match left {
            Some(source) => if source.block_pc == block.start_pc || matches!(source.provenance, OptProvenance::Argument(_))
                && find_only_from(ir, block.start_pc, source.block_pc) {
                Some(source)
            } else {
                None
            },
            None => None,
        },
    }
}

fn declare_helpers(code: &mut Code, helpers: &Vec<HelperSignature>) -> (r: Vec<usize>)
    ensures
        kept(*old(code), *final(code)),
        steady(*old(code), *final(code)),
        r@.len() == helpers@.len(),
        declared(*old(code), *final(code)),
        helpers_declared(r@, helpers@, old(code).len(), final(code).len(), final(code).insts@),
{
    let mut signatures: Vec<usize> = Vec::new();
    while signatures.len() < helpers.len()
        invariant
            kept(*old(code), *code),
            steady(*old(code), *code),
            signatures@.len() <= helpers@.len(),
            declared(*old(code), *code),
            helpers_declared(signatures@, helpers@, old(code).len(), code.len(), code.insts@),
        decreases helpers@.len() - signatures@.len(),
    {
        let ghost c0 = *code;
        let helper = &helpers[signatures.len()];
        let signature = code.new_signature(copy_types(&helper.params), helper.result);
        proof {
            kept_instructions(c0, *code);
        }
        signatures.push(signature);
    }
    signatures
}

/// The blocks from `b` on wait for their code.
spec fn blocks_wait(ir: OptimizedIr, blocks: Map<u32, usize>, b: int, code: Code) -> bool {
    forall|i: int| b <= i < ir.blocks@.len() ==> code.unstarted(blocks[(#[trigger] ir.blocks@[i]).start_pc] as int)
}

/// Lowers the blocks, one behind the other.
#[verifier::rlimit(60)]
fn lower_blocks<'a>(
    code: &mut Code,
    input: &MachineInput<'a>,
    mx: &Machine<'_>,
    Ghost(ids): Ghost<FrameIds>,
    Ghost(marks): Ghost<Seq<int>>,
    Ghost(parts): Ghost<Seq<Code>>,
) -> (r: Result<(), Refusal>)
    requires
        input.wf(),
        input.drives(*mx),
        mx.wf(old(code).len()),
        prologue_lowered(*input, *mx, ids, parts),
        parts[11] == *old(code),
        machine_wired(*input, *mx, marks, *old(code)),
    ensures
        kept(*old(code), *final(code)),
        r matches Err(e) ==> machine_refused(*input, e),
        r is Ok ==> exists|t: MachineTrace| #[trigger] machine_lowered(*input, *mx, t, *final(code)),
        r is Ok && input.assemblable() && mx.typed(*old(code)) && shut(*old(code), machine_params()) && blocks_wait(
            *input.ir,
            mx.blocks@,
            0,
            *old(code),
        ) ==> shut(*final(code), machine_params()),
{
    let ghost first = *code;
    let ir = input.ir;
    let mut sources: BTreeMap<u32, GuardedElementSource> = BTreeMap::new();
    let mut left: Option<GuardedElementSource> = None;
    let ghost mut t = MachineTrace {
        ids,
        marks,
        parts,
        codes: seq![*code],
        sources: seq![sources@],
        blocks: Seq::empty(),
    };
    assert(sources@ =~= Map::<u32, GuardedElementSource>::empty());
    proof {
        reveal(sources_held);
    }
    let mut b: usize = 0;
    while b < ir.blocks.len()
        invariant
            kept(*old(code), *code),
            b <= ir.blocks@.len(),
            *ir == *input.ir,
            first.len() <= code.len(),
            input.wf(),
            input.drives(*mx),
            mx.wf(first.len()),
            sources_known(sources@, code.len()),
            left matches Some(found) ==> storage_known(found.storage, code.len()),
            left == t.left_behind(b as int),
            machine_begun(*input, *mx, t, b as int),
            t.codes[b as int] == *code,
            t.sources[b as int] == sources@,
            input.assemblable() && mx.typed(*old(code)) && shut(*old(code), machine_params())
                && blocks_wait(*input.ir, mx.blocks@, 0, *old(code))
                ==> mx.typed(*code) && shut(*code, machine_params()) && sources_held(*code, sources@) && source_held(
                *code,
                left,
            ) && blocks_wait(*input.ir, mx.blocks@, b as int, *code),
        decreases ir.blocks@.len() - b,
    {
        let ghost before = t;
        let ghost known = sources@;
        let block = &ir.blocks[b];
        let provenance = match input.entries.get(&block.start_pc) {
            Some(provenance) => provenance,
            None => {
                assert(machine_stuck(*input, *mx, t, b as int, unstaged(CompileFailure::InvalidArtifact)));
                return Err(Refusal { failure: CompileFailure::InvalidArtifact, stage: None });
            },
        };
        let carried = find_carried(ir, block, &sources, left);
        match mx.lower_block(code, block, provenance, carried, &mut sources) {
            Ok((after, trace)) => {
                left = after;
                proof {
                    if input.assemblable() && mx.typed(*old(code)) && shut(*old(code), machine_params())
                        && blocks_wait(*input.ir, mx.blocks@, 0, *old(code)) {
                        let native = mx.blocks@[block.start_pc];
                        assert forall|i: int| b + 1 <= i < ir.blocks@.len() implies code.unstarted(
                            mx.blocks@[(#[trigger] ir.blocks@[i]).start_pc] as int,
                        ) by {
                            let other = mx.blocks@[ir.blocks@[i].start_pc];
                            assert(ir.blocks@[b as int].start_pc != ir.blocks@[i].start_pc);
                            assert(mx.blocks@.contains_key(ir.blocks@[i].start_pc));
                            assert(mx.blocks@.contains_key(ir.blocks@[b as int].start_pc));
                            assert(other != native);
                            assert(before.codes[b as int].blocked(other));
                        }
                    }
                    t =
                    MachineTrace {
                        ids: before.ids,
                        marks: before.marks,
                        parts: before.parts,
                        codes: before.codes.push(*code),
                        sources: before.sources.push(sources@),
                        blocks: before.blocks.push(trace@),
                    };
                    wired_on(*input, *mx, before.marks, before.codes[b as int], *code);
                    assert forall|i: int| 0 <= i < b + 1 implies kept(#[trigger] t.codes[i], t.codes[i + 1]) by {
                        if i < b {
                            assert(kept(before.codes[i], before.codes[i + 1]));
                        }
                    }
                    assert forall|i: int| 0 <= i < b + 1 implies #[trigger] machine_step(*input, *mx, t, i) by {
                        if i < b {
                            assert(machine_step(*input, *mx, before, i));
                            assert(t.left_behind(i) == before.left_behind(i));
                        } else {
                            assert(t.left_behind(i) == before.left_behind(i));
                        }
                    }
                }
            },
            Err(e) => {
                assert(machine_stuck(*input, *mx, t, b as int, e));
                return Err(e);
            },
        }
        b = b + 1;
    }
    assert(machine_lowered(*input, *mx, t, *code));
    Ok(())
}

/// The code is a lowering of the function.
pub open spec fn lowers(input: MachineInput<'_>, code: Code) -> bool {
    exists|mx: Machine<'_>, t: MachineTrace| #[trigger] machine_lowered(input, mx, t, code)
}

/// Lowers a function that was specialized: the frame is opened and its slots
/// read, the entry checked, and the blocks lowered in order.
#[verifier::rlimit(80)]
pub fn lower_optimized_machine(input: &MachineInput<'_>) -> (r: Result<Code, Refusal>)
    requires
        input.wf(),
    ensures
        r matches Err(e) ==> machine_refused(*input, e),
        r matches Ok(code) ==> lowers(*input, code),
        r is Ok && input.assemblable() ==> assembles(r->Ok_0.insts@, machine_params()),
{
    let ir = input.ir;
    let payload_type = if input.int32_loop {
        Ty::I32
    } else {
        Ty::I64
    };
    let (mut code, ids) = open_frame(input.abi);
    let ghost p0 = code;
    let helper_signatures = declare_helpers(&mut code, input.helpers);
    let ghost d1 = code;
    let arguments = declare_slots(&mut code, input.shape.arguments as usize, payload_type);
    let ghost d2 = code;
    let locals = declare_slots(&mut code, input.shape.locals as usize, payload_type);
    let ghost d3 = code;
    let stack = declare_slots(&mut code, input.stack_slots, payload_type);
    let ghost d4 = code;
    let phis = declare_phis(&mut code, ir, payload_type);
    let ghost d5 = code;
    let query_receiver = code.new_slot(16, 3);
    let ghost e1 = code;
    let query_metadata = code.new_slot(input.abi.elements.metadata_size, 3);
    let ghost e2 = code;
    let call_output = code.new_slot(16, 3);
    let ghost e3 = code;
    let budget = code.new_slot(8, 3);
    let ghost p1 = code;
    let cache = PropertyCache::from_candidates(&mut code, input.candidates);
    let ghost p2 = code;
    let guards = input.hoisted.create_state(&mut code);
    let ghost p3 = code;
    fill_budget(&mut code, budget);
    let ghost p4 = code;
    let env = OptEnv {
        frame: ids.frame,
        sret: ids.sret,
        arg_buf: ids.arg_buf,
        var_buf: ids.var_buf,
        stack_base: ids.stack_base,
        payload_type,
        int32_loop: input.int32_loop,
        arguments: &arguments,
        locals: &locals,
        stack: &stack,
        helper_signatures: &helper_signatures,
        abi: input.abi,
        cache: &cache.entries,
        query_receiver,
        query_metadata,
        call_output,
    };
    let ghost declared_at = seq![
        p0.len(),
        d1.len(),
        d2.len(),
        d3.len(),
        d4.len(),
        d5.len(),
        p1.len(),
        p2.len(),
    ];
    proof {
        if input.assemblable() {
            kept_instructions(d1, code);
            kept_instructions(d2, code);
            kept_instructions(d3, code);
            kept_instructions(d4, code);
            kept_instructions(p2, code);
            declared_frame_is_typed(*input, env, declared_at, code);
            assert(live(code, machine_params()));
        }
    }
    read_slots(&mut code, env.int32_loop, env.arg_buf, env.arguments);
    let ghost p5 = code;
    if env.int32_loop {
        clear_slots(&mut code, env.locals, payload_type);
    } else {
        read_slots(&mut code, false, env.var_buf, env.locals);
    }
    let ghost p6 = code;
    clear_slots(&mut code, env.stack, payload_type);
    let ghost p7 = code;
    proof {
        kept_instructions(p3, code);
        assert(guards_named(code, guards.valid@, guards.used@)) by {
            reveal(Code::kind);
            reveal(guards_named);
            assert forall|i: int| 0 <= i < guards.used@.len() implies code.names(#[trigger] guards.used@[i], Ty::I8) by {
                assert(crate::guard_code::guard_declared(
                    guards.valid@[i],
                    guards.used@[i],
                    p2.len(),
                    p3.len(),
                    code.insts@,
                ));
            }
        }
    }
    let probed = input.hoisted.probe_entry(&mut code, &env, &guards);
    let ghost p8 = code;
    let blocks = declare_blocks(&mut code, ir);
    let ghost p9 = code;
    let mx = Machine {
        env: &env,
        ir,
        specialization: input.specialization,
        owned_locals: input.owned_locals,
        defer_locals: input.defer_locals,
        amortized_poll: input.amortized_poll,
        side_path: input.side_path,
        proven: input.proven,
        scalar_nodes: input.scalar_nodes,
        definitions: input.definitions,
        calls: input.calls,
        edges: input.edges,
        phis: &phis,
        direct_calls: input.direct_calls,
        bounded: input.bounded,
        cache: &cache,
        accesses: input.accesses,
        boundaries: input.boundaries,
        forwarded: input.forwarded,
        arrays: input.arrays,
        hoisted: input.hoisted,
        guards: &guards,
        api: input.api,
        regions: input.regions,
        blocks: &blocks,
        budget,
        entry_guard: input.entry_guard,
    };
    assert(input.drives(mx));
    if let Err(e) = probed {
        assert(prologue_refused(mx));
        return Err(Refusal { failure: e, stage: None });
    }
    let first = match find_block(ir, 0) {
        Some(first) => first,
        None => {
            assert(prologue_refused(mx));
            return Err(Refusal { failure: CompileFailure::InvalidArtifact, stage: None });
        },
    };
    let inputs = &ir.blocks[first].inputs;
    assert(inputs@ == inputs_at(*ir, 0));
    proof {
        kept_instructions(d5, code);
        assert(phis_named(code, phis@, payload_type)) by {
            reveal(Code::kind);
            reveal(phis_named);
        }
    }
    if let Err(e) = set_initials(&mut code, ir, input.edges, &phis, env.arguments, env.locals, inputs, payload_type) {
        assert(prologue_refused(mx));
        return Err(Refusal { failure: e, stage: None });
    }
    let ghost p10 = code;
    let entry = match blocks.get(&0) {
        Some(entry) => *entry,
        None => {
            assert(ir.blocks@[first as int].start_pc == 0);
            assert(false);
            return Err(Refusal { failure: CompileFailure::InvalidArtifact, stage: None });
        },
    };
    let none: Vec<bool> = Vec::new();
    let no_locals: Vec<OptVars> = Vec::new();
    proof {
        reveal(slots_named);
    }
    let requirements = SlotRequirements {
        argument_count: input.shape.arguments as usize,
        owned_locals: &none,
        representations: &input.specialization.arguments,
        representation: input.specialization.entry,
    };
    let side_path = match input.side_path {
        Some(profile) => if profile.guard == input.entry_guard {
            Some(profile)
        } else {
            None
        },
        None => None,
    };
    emit_opt_numeric_guard(
        &mut code,
        &env,
        &requirements,
        env.arguments,
        &no_locals,
        input.entry_guard,
        0,
        entry,
        side_path,
    );
    let ghost p11 = code;
    let ghost marks = seq![
        p0.len(),
        d1.len(),
        d2.len(),
        d3.len(),
        d4.len(),
        d5.len(),
        p1.len(),
        p2.len(),
        p3.len(),
        p8.len(),
        p9.len(),
    ];
    let ghost parts = seq![p0, p1, p2, p3, p4, p5, p6, p7, p8, p9, p10, p11];
    proof {
        assert(requirements == entry_requirements(*input, &none));
        assert(no_locals@ =~= Seq::<OptVars>::empty());
        assert(entry_checked(*input, mx, p10, p11));
        assert(declared(p0, p1));
        assert(cache_blank(cache, p1, p2));
        assert(targets_unset(mx, p2, p3));
        assert(targets_probed(mx, p7, p8));
        assert(prologue_lowered(*input, mx, ids, parts));
        kept_instructions(d1, code);
        kept_instructions(d2, code);
        kept_instructions(d3, code);
        kept_instructions(d4, code);
        kept_instructions(d5, code);
        kept_instructions(e1, code);
        kept_instructions(e2, code);
        kept_instructions(e3, code);
        kept_instructions(p1, code);
        kept_instructions(p2, code);
        kept_instructions(p3, code);
        kept_instructions(p9, code);
        assert(helpers_declared(env.helper_signatures@, input.helpers@, marks[0], marks[1], code.insts@));
        assert(slots_declared(env.arguments@, env.payload_type, marks[1], marks[2], code.insts@));
        assert(slots_declared(env.locals@, env.payload_type, marks[2], marks[3], code.insts@));
        assert(slots_declared(env.stack@, env.payload_type, marks[3], marks[4], code.insts@));
        assert(phis_apart(mx.phis@, env.payload_type, marks[4], marks[5], code.insts@));
        assert(memory_declared(*input, mx, marks[5], marks[6], code.insts@));
        assert(cache_declared(mx.cache.entries@, marks[6], marks[7], code.insts@));
        assert(guards_declared(mx.guards.valid@, mx.guards.used@, marks[7], marks[8], code.insts@));
        assert(blocks_apart(mx.blocks@, marks[9], marks[10], code.insts@));
        assert(machine_wired(*input, mx, marks, code));
    }
    proof {
        if input.assemblable() {
            wired_machine_is_typed(*input, mx, marks, code);
            assert forall|i: int| 0 <= i < ir.blocks@.len() implies code.unstarted(
                mx.blocks@[(#[trigger] ir.blocks@[i]).start_pc] as int,
            ) by {
                assert(mx.blocks@.contains_key(ir.blocks@[i].start_pc));
            }
        }
    }
    if let Err(e) = lower_blocks(&mut code, input, &mx, Ghost(ids), Ghost(marks), Ghost(parts)) {
        return Err(e);
    }
    proof {
        let t = choose|t: MachineTrace| #[trigger] machine_lowered(*input, mx, t, code);
        assert(machine_lowered(*input, mx, t, code));
        assert(lowers(*input, code));
        if input.assemblable() {
            assert(shut(code, machine_params()));
            reveal(shut);
        }
    }
    Ok(code)
}

/// The code calls something.
pub open spec fn makes_calls(code: Code) -> bool {
    exists|i: int| 0 <= i < code.insts@.len() && #[trigger] code.insts@[i] is Call
}

/// Whether the code calls helpers: only then does a function publish the stack
/// map that helpers are called with.
pub fn calls_helpers(code: &Code) -> (r: bool)
    ensures
        r == makes_calls(*code),
{
    let mut i: usize = 0;
    while i < code.insts.len()
        invariant
            i <= code.insts@.len(),
            forall|k: int| 0 <= k < i ==> !(#[trigger] code.insts@[k] is Call),
        decreases code.insts@.len() - i,
    {
        if matches!(&code.insts[i], Inst::Call { .. }) {
            assert(code.insts@[i as int] is Call);
            return true;
        }
        i = i + 1;
    }
    false
}

} // verus!
