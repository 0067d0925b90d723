//! Constant folding, common-subexpression elimination and liveness for
//! straight-line numeric code.
use vstd::prelude::*;

verus! {

#[derive(Clone, Copy, Debug, PartialEq, Eq, Structural)]
pub enum NumericBinaryOp {
    Add,
    Sub,
    Mul,
    Div,
}

/// A numeric constant; a double is held as its IEEE 754 bit pattern.
#[derive(Clone, Copy, Debug, PartialEq, Eq, Structural)]
pub enum NumericConstant {
    Int32(i32),
    Float64(u64),
}

/// The bit pattern of the double negative zero.
pub const NEGATIVE_ZERO_BITS: u64 = 0x8000_0000_0000_0000;

impl NumericConstant {
    pub fn is_negative_zero(self) -> (r: bool)
        ensures
            r == (self == NumericConstant::Float64(NEGATIVE_ZERO_BITS)),
    {
        match self {
            NumericConstant::Float64(bits) => bits == NEGATIVE_ZERO_BITS,
            NumericConstant::Int32(_) => false,
        }
    }
}

#[derive(Clone, Copy, Debug, PartialEq, Eq, Structural)]
pub enum OptimizedInput {
    Constant(NumericConstant),
    Binary { op: NumericBinaryOp, lhs: u32, rhs: u32 },
    Return(u32),
}

impl OptimizedInput {
    pub fn constant_i32(value: i32) -> (r: Self)
        ensures
            r == OptimizedInput::Constant(NumericConstant::Int32(value)),
    {
        OptimizedInput::Constant(NumericConstant::Int32(value))
    }

    /// The double with the given bit pattern.
    pub fn constant_f64(bits: u64) -> (r: Self)
        ensures
            r == OptimizedInput::Constant(NumericConstant::Float64(bits)),
    {
        OptimizedInput::Constant(NumericConstant::Float64(bits))
    }

    pub fn binary(op: NumericBinaryOp, lhs: u32, rhs: u32) -> (r: Self)
        ensures
            r == (OptimizedInput::Binary { op, lhs, rhs }),
    {
        OptimizedInput::Binary { op, lhs, rhs }
    }

    pub fn ret(value: u32) -> (r: Self)
        ensures
            r == OptimizedInput::Return(value),
    {
        OptimizedInput::Return(value)
    }
}

#[derive(Clone, Copy, Debug, PartialEq, Eq, Structural)]
pub enum OptimizedCompileError {
    InvalidValue,
    MissingReturn,
    Unsupported,
}

/// What folding one operation yields.
#[derive(Clone, Copy, Debug, PartialEq, Eq, Structural)]
pub enum FoldOutcome {
    /// The constant is known exactly.
    Constant(NumericConstant),
    /// The operation has to be carried out in double precision.
    Double,
}

/// The mathematical result of an integer operation that can stay an integer.
pub open spec fn integer_result(op: NumericBinaryOp, lhs: int, rhs: int) -> int {
    match op {
        NumericBinaryOp::Add => lhs + rhs,
        NumericBinaryOp::Sub => lhs - rhs,
        NumericBinaryOp::Mul => lhs * rhs,
        NumericBinaryOp::Div => 0,
    }
}

/// Two integers fold to an integer where the result is one and fits, and to
/// negative zero where JavaScript multiplication yields it. Anything else is
/// double arithmetic.
pub open spec fn fold_outcome(op: NumericBinaryOp, lhs: NumericConstant, rhs: NumericConstant) -> FoldOutcome {
    match (lhs, rhs) {
        (NumericConstant::Int32(l), NumericConstant::Int32(r)) => if op == NumericBinaryOp::Mul && (l == 0 || r == 0)
            && (l < 0 || r < 0) {
            FoldOutcome::Constant(NumericConstant::Float64(NEGATIVE_ZERO_BITS))
        } else if op != NumericBinaryOp::Div && i32::MIN <= integer_result(op, l as int, r as int) <= i32::MAX {
            FoldOutcome::Constant(NumericConstant::Int32(integer_result(op, l as int, r as int) as i32))
        } else {
            FoldOutcome::Double
        },
        _ => FoldOutcome::Double,
    }
}

pub fn fold(op: NumericBinaryOp, lhs: NumericConstant, rhs: NumericConstant) -> (r: FoldOutcome)
    ensures
        r == fold_outcome(op, lhs, rhs),
{
    match (lhs, rhs) {
        (NumericConstant::Int32(l), NumericConstant::Int32(r)) => {
            if op == NumericBinaryOp::Mul && (l == 0 || r == 0) && (l < 0 || r < 0) {
                return FoldOutcome::Constant(NumericConstant::Float64(NEGATIVE_ZERO_BITS));
            }
            assert(-0x4000_0000_0000_0000 <= l * r <= 0x4000_0000_0000_0000) by (nonlinear_arith)
                requires
                    -0x8000_0000 <= l <= 0x7fff_ffff,
                    -0x8000_0000 <= r <= 0x7fff_ffff,
            ;
            let exact: i64 = match op {
                NumericBinaryOp::Add => l as i64 + r as i64,
                NumericBinaryOp::Sub => l as i64 - r as i64,
                NumericBinaryOp::Mul => l as i64 * r as i64,
                NumericBinaryOp::Div => {
                    return FoldOutcome::Double;
                },
            };
            if -0x8000_0000 <= exact && exact <= 0x7fff_ffff {
                FoldOutcome::Constant(NumericConstant::Int32(exact as i32))
            } else {
                FoldOutcome::Double
            }
        },
        _ => FoldOutcome::Double,
    }
}

/// The contents of a compiled function.
pub struct OptimizedModel {
    pub constants: Seq<Option<NumericConstant>>,
    pub representatives: Seq<u32>,
    pub operands: Seq<Option<(u32, u32)>>,
    pub return_value: u32,
    pub boxes_elided: nat,
    pub cse_eliminated: nat,
    pub dead_nodes_eliminated: nat,
}

#[derive(Debug)]
pub struct OptimizedFunction {
    constants: Vec<Option<NumericConstant>>,
    representatives: Vec<u32>,
    operands: Vec<Option<(u32, u32)>>,
    return_value: u32,
    boxes_elided: u64,
    cse_eliminated: u64,
    dead_nodes_eliminated: u64,
}

impl View for OptimizedFunction {
    type V = OptimizedModel;

    closed spec fn view(&self) -> OptimizedModel {
        OptimizedModel {
            constants: self.constants@,
            representatives: self.representatives@,
            operands: self.operands@,
            return_value: self.return_value,
            boxes_elided: self.boxes_elided as nat,
            cse_eliminated: self.cse_eliminated as nat,
            dead_nodes_eliminated: self.dead_nodes_eliminated as nat,
        }
    }
}

impl OptimizedFunction {
    pub fn constant(&self, value: u32) -> (r: Option<NumericConstant>)
        ensures
            r == (if value < self@.constants.len() { self@.constants[value as int] } else { None }),
    {
        if (value as usize) < self.constants.len() {
            self.constants[value as usize]
        } else {
            None
        }
    }

    pub fn return_value(&self) -> (r: u32)
        ensures
            r == self@.return_value,
    {
        self.return_value
    }

    pub fn boxes_elided(&self) -> (r: u64)
        ensures
            r == self@.boxes_elided,
    {
        self.boxes_elided
    }

    pub fn cse_eliminated(&self) -> (r: u64)
        ensures
            r == self@.cse_eliminated,
    {
        self.cse_eliminated
    }

    pub fn dead_nodes_eliminated(&self) -> (r: u64)
        ensures
            r == self@.dead_nodes_eliminated,
    {
        self.dead_nodes_eliminated
    }

    pub fn representative(&self, value: u32) -> (r: Option<u32>)
        ensures
            r == (if value < self@.representatives.len() { Some(self@.representatives[value as int]) } else { None }),
    {
        if (value as usize) < self.representatives.len() {
            Some(self.representatives[value as usize])
        } else {
            None
        }
    }

    pub fn operands(&self, value: u32) -> (r: Option<(u32, u32)>)
        ensures
            r == (if value < self@.operands.len() { self@.operands[value as int] } else { None }),
    {
        if (value as usize) < self.operands.len() {
            self.operands[value as usize]
        } else {
            None
        }
    }
}

/// Input `i` names only earlier values, and computes only with values.
pub open spec fn valid_input(inputs: Seq<OptimizedInput>, i: int) -> bool {
    &&& i <= u32::MAX
    &&& match inputs[i] {
        OptimizedInput::Constant(_) => true,
        OptimizedInput::Binary { op, lhs, rhs } => {
            &&& lhs < i
            &&& rhs < i
            &&& inputs[lhs as int] !is Return
            &&& inputs[rhs as int] !is Return
        },
        OptimizedInput::Return(value) => value < i,
    }
}

/// Inputs `j` and `i` apply the same operation to the same values.
pub open spec fn same_expression(inputs: Seq<OptimizedInput>, reps: Seq<u32>, j: int, i: int) -> bool {
    match (inputs[j], inputs[i]) {
        (OptimizedInput::Binary { op: p, lhs: a, rhs: b }, OptimizedInput::Binary { op: q, lhs: c, rhs: d }) => {
            p == q && reps[a as int] == reps[c as int] && reps[b as int] == reps[d as int]
        },
        _ => false,
    }
}

/// An operation is represented by the first one that computes the same.
pub open spec fn representative_of(inputs: Seq<OptimizedInput>, reps: Seq<u32>, i: int) -> bool {
    if inputs[i] is Binary {
        &&& reps[i] <= i
        &&& same_expression(inputs, reps, reps[i] as int, i)
        &&& forall|j: int| 0 <= j < reps[i] ==> !#[trigger] same_expression(inputs, reps, j, i)
    } else {
        reps[i] == i
    }
}

pub open spec fn operands_of(inputs: Seq<OptimizedInput>, reps: Seq<u32>, i: int) -> Option<(u32, u32)> {
    match inputs[i] {
        OptimizedInput::Binary { op, lhs, rhs } => Some((reps[lhs as int], reps[rhs as int])),
        _ => None,
    }
}

/// The constant of value `i`; `floats[k]` is what double arithmetic gives at `k`,
/// and a repeated expression takes the double of the one that represents it.
pub open spec fn constant_of(
    inputs: Seq<OptimizedInput>,
    reps: Seq<u32>,
    constants: Seq<Option<NumericConstant>>,
    floats: Seq<u64>,
    i: int,
) -> Option<NumericConstant> {
    match inputs[i] {
        OptimizedInput::Constant(value) => Some(value),
        OptimizedInput::Binary { op, lhs, rhs } => Some(
            match fold_outcome(
                op,
                constants[reps[lhs as int] as int]->Some_0,
                constants[reps[rhs as int] as int]->Some_0,
            ) {
                FoldOutcome::Constant(value) => value,
                FoldOutcome::Double => NumericConstant::Float64(floats[reps[i] as int]),
            },
        ),
        OptimizedInput::Return(_) => None,
    }
}

/// How many of the first `n` indices satisfy `f`.
pub open spec fn count(f: spec_fn(int) -> bool, n: nat) -> nat
    decreases n,
{
    if n == 0 {
        0
    } else {
        count(f, (n - 1) as nat) + if f(n - 1) { 1nat } else { 0nat }
    }
}

/// `user` has `value` as an operand.
pub open spec fn uses(operands: Seq<Option<(u32, u32)>>, user: int, value: int) -> bool {
    operands[user] matches Some((lhs, rhs)) && (lhs == value || rhs == value)
}

/// Value `i` contributes to the returned value.
pub open spec fn live(operands: Seq<Option<(u32, u32)>>, ret: int, i: int) -> bool
    decreases operands.len() - i,
{
    ||| i == ret
    ||| exists|j: int| i < j < operands.len() && #[trigger] uses(operands, j, i) && live(operands, ret, j)
}

pub open spec fn is_return_of(inputs: Seq<OptimizedInput>, reps: Seq<u32>, ret: u32, n: int) -> bool {
    exists|k: int|
        #![trigger inputs[k]]
        0 <= k < n && inputs[k] is Return && reps[inputs[k]->Return_0 as int] == ret && (forall|j: int|
            k < j < n ==> !(#[trigger] inputs[j] is Return))
}

/// The compiled form of valid inputs.
pub open spec fn compiled(inputs: Seq<OptimizedInput>, floats: Seq<u64>, m: OptimizedModel) -> bool {
    &&& m.constants.len() == inputs.len()
    &&& m.representatives.len() == inputs.len()
    &&& m.operands.len() == inputs.len()
    &&& forall|i: int| 0 <= i < inputs.len() ==> #[trigger] representative_of(inputs, m.representatives, i)
    &&& forall|i: int|
        0 <= i < inputs.len() ==> #[trigger] m.operands[i] == operands_of(inputs, m.representatives, i)
    &&& forall|i: int|
        0 <= i < inputs.len() ==> #[trigger] m.constants[i] == constant_of(
            inputs,
            m.representatives,
            m.constants,
            floats,
            i,
        )
    &&& is_return_of(inputs, m.representatives, m.return_value, inputs.len() as int)
    &&& m.boxes_elided == count(|i: int| inputs[i] is Binary, inputs.len())
    &&& m.cse_eliminated == count(|i: int| m.representatives[i] != i, inputs.len())
    &&& m.dead_nodes_eliminated == count(
        |i: int| !(inputs[i] is Return) && !live(m.operands, m.return_value as int, i),
        inputs.len(),
    )
}

/// A representative represents itself, and has the constant of every value that
/// it represents.
pub proof fn representatives_are_idempotent(inputs: Seq<OptimizedInput>, floats: Seq<u64>, m: OptimizedModel, i: int)
    requires
        compiled(inputs, floats, m),
        forall|k: int| 0 <= k < inputs.len() ==> #[trigger] valid_input(inputs, k),
        0 <= i < inputs.len(),
    ensures
        m.representatives[i] <= i,
        m.representatives[m.representatives[i] as int] == m.representatives[i],
        m.constants[m.representatives[i] as int] == m.constants[i],
{
    let reps = m.representatives;
    assert(representative_of(inputs, reps, i));
    let j = reps[i] as int;
    assert(representative_of(inputs, reps, j));
    if inputs[i] is Binary && reps[j] != j {
        let k = reps[j] as int;
        assert(same_expression(inputs, reps, k, j));
        assert(same_expression(inputs, reps, j, i));
        assert(same_expression(inputs, reps, k, i));
    }
}

/// Every value is returned, contributes to it, is dead, or is a return marker:
/// no more values are dropped than there are.
pub proof fn dead_nodes_are_bounded(inputs: Seq<OptimizedInput>, floats: Seq<u64>, m: OptimizedModel)
    requires
        compiled(inputs, floats, m),
    ensures
        m.dead_nodes_eliminated <= inputs.len(),
        m.cse_eliminated <= m.boxes_elided <= inputs.len(),
{
    let binary = |i: int| inputs[i] is Binary;
    let shared = |i: int| m.representatives[i] != i;
    count_bounded(|i: int| !(inputs[i] is Return) && !live(m.operands, m.return_value as int, i), inputs.len());
    count_bounded(binary, inputs.len());
    assert forall|i: int| 0 <= i < inputs.len() && shared(i) implies #[trigger] binary(i) by {
        assert(representative_of(inputs, m.representatives, i));
    }
    count_monotone(shared, binary, inputs.len());
}

proof fn count_bounded(f: spec_fn(int) -> bool, n: nat)
    ensures
        count(f, n) <= n,
    decreases n,
{
    if n > 0 {
        count_bounded(f, (n - 1) as nat);
    }
}

proof fn count_monotone(f: spec_fn(int) -> bool, g: spec_fn(int) -> bool, n: nat)
    requires
        forall|i: int| 0 <= i < n && f(i) ==> #[trigger] g(i),
    ensures
        count(f, n) <= count(g, n),
    decreases n,
{
    if n > 0 {
        count_monotone(f, g, (n - 1) as nat);
        assert(f(n - 1) ==> g(n - 1));
    }
}

proof fn count_same(f: spec_fn(int) -> bool, g: spec_fn(int) -> bool, n: nat)
    requires
        forall|i: int| 0 <= i < n ==> #[trigger] f(i) == #[trigger] g(i),
    ensures
        count(f, n) == count(g, n),
    decreases n,
{
    if n > 0 {
        count_same(f, g, (n - 1) as nat);
        assert(f(n - 1) == g(n - 1));
    }
}

/// The tables describe the inputs that they cover.
spec fn prefix_ok(
    inputs: Seq<OptimizedInput>,
    floats: Seq<u64>,
    reps: Seq<u32>,
    constants: Seq<Option<NumericConstant>>,
    operands: Seq<Option<(u32, u32)>>,
) -> bool {
    &&& reps.len() == constants.len() == operands.len()
    &&& reps.len() <= inputs.len()
    &&& forall|k: int| 0 <= k < reps.len() ==> #[trigger] valid_input(inputs, k)
    &&& forall|k: int| 0 <= k < reps.len() ==> #[trigger] representative_of(inputs, reps, k)
    &&& forall|k: int| 0 <= k < reps.len() ==> #[trigger] operands[k] == operands_of(inputs, reps, k)
    &&& forall|k: int|
        0 <= k < reps.len() ==> #[trigger] constants[k] == constant_of(inputs, reps, constants, floats, k)
}

proof fn prefix_value(
    inputs: Seq<OptimizedInput>,
    floats: Seq<u64>,
    reps: Seq<u32>,
    constants: Seq<Option<NumericConstant>>,
    operands: Seq<Option<(u32, u32)>>,
    k: int,
)
    requires
        prefix_ok(inputs, floats, reps, constants, operands),
        0 <= k < reps.len(),
    ensures
        reps[k] <= k,
        constants[reps[k] as int] is None <==> inputs[k] is Return,
{
    assert(representative_of(inputs, reps, k));
    assert(constants[reps[k] as int] == constant_of(inputs, reps, constants, floats, reps[k] as int));
}

proof fn return_step(inputs: Seq<OptimizedInput>, reps: Seq<u32>, rep: u32, i: int, ret: u32)
    requires
        0 <= i == reps.len(),
        i < inputs.len(),
        forall|k: int| 0 <= k <= i ==> #[trigger] valid_input(inputs, k),
        if inputs[i] is Return {
            ret == reps[inputs[i]->Return_0 as int]
        } else {
            is_return_of(inputs, reps, ret, i)
        },
    ensures
        is_return_of(inputs, reps.push(rep), ret, i + 1),
{
    let next = reps.push(rep);
    let k = if inputs[i] is Return {
        i
    } else {
        choose|k: int|
            #![trigger inputs[k]]
            0 <= k < i && inputs[k] is Return && reps[inputs[k]->Return_0 as int] == ret && (forall|j: int|
                k < j < i ==> !(#[trigger] inputs[j] is Return))
    };
    assert(valid_input(inputs, k));
    assert(inputs[k] is Return && next[inputs[k]->Return_0 as int] == ret);
}

#[verifier::spinoff_prover]
proof fn prefix_step(
    inputs: Seq<OptimizedInput>,
    floats: Seq<u64>,
    reps: Seq<u32>,
    constants: Seq<Option<NumericConstant>>,
    operands: Seq<Option<(u32, u32)>>,
    rep: u32,
    folded: Option<NumericConstant>,
    operand: Option<(u32, u32)>,
)
    requires
        prefix_ok(inputs, floats, reps, constants, operands),
        reps.len() < inputs.len(),
        valid_input(inputs, reps.len() as int),
        match inputs[reps.len() as int] {
            OptimizedInput::Binary { op, lhs, rhs } => {
                &&& rep <= reps.len()
                &&& forall|j: int|
                    0 <= j < rep ==> !(#[trigger] inputs[j] matches OptimizedInput::Binary { op: p, lhs: a, rhs: b } && p
                        == op && reps[a as int] == reps[lhs as int] && reps[b as int] == reps[rhs as int])
                &&& rep < reps.len() ==> (inputs[rep as int] matches OptimizedInput::Binary { op: p, lhs: a, rhs: b } && p
                    == op && reps[a as int] == reps[lhs as int] && reps[b as int] == reps[rhs as int])
            },
            _ => rep == reps.len(),
        },
        operand == operands_of(inputs, reps, reps.len() as int),
        folded == constant_of(inputs, reps.push(rep), constants, floats, reps.len() as int),
    ensures
        prefix_ok(inputs, floats, reps.push(rep), constants.push(folded), operands.push(operand)),
{
    let n = reps.len() as int;
    let reps1 = reps.push(rep);
    let constants1 = constants.push(folded);
    assert forall|j: int, k: int| 0 <= j <= n && 0 <= k <= n implies #[trigger] same_expression(inputs, reps1, j, k)
        == same_expression(inputs, reps, j, k) by {
        assert(valid_input(inputs, j));
        assert(valid_input(inputs, k));
    }
    assert forall|k: int| 0 <= k <= n implies #[trigger] representative_of(inputs, reps1, k) by {
        assert(valid_input(inputs, k));
        if k < n {
            assert(representative_of(inputs, reps, k));
            if inputs[k] is Binary {
                assert forall|j: int| 0 <= j < reps1[k] implies !#[trigger] same_expression(inputs, reps1, j, k) by {
                    assert(!same_expression(inputs, reps, j, k));
                }
            }
        } else if inputs[k] is Binary {
            assert forall|j: int| 0 <= j < reps1[k] implies !#[trigger] same_expression(inputs, reps1, j, k) by {
                assert(valid_input(inputs, j));
                let e = inputs[j];
                assert(!same_expression(inputs, reps, j, k));
            }
            assert(valid_input(inputs, rep as int));
            assert(same_expression(inputs, reps, rep as int, k));
        }
    }
    assert forall|k: int| 0 <= k <= n implies #[trigger] operands.push(operand)[k] == operands_of(inputs, reps1, k) by {
        assert(valid_input(inputs, k));
        if k < n {
            assert(operands[k] == operands_of(inputs, reps, k));
        }
    }
    assert forall|k: int| 0 <= k <= n implies #[trigger] constants1[k] == constant_of(
        inputs,
        reps1,
        constants1,
        floats,
        k,
    ) by {
        assert(valid_input(inputs, k));
        if k < n {
            assert(constants[k] == constant_of(inputs, reps, constants, floats, k));
        }
        if let OptimizedInput::Binary { op, lhs, rhs } = inputs[k] {
            assert(representative_of(inputs, reps, lhs as int));
            assert(representative_of(inputs, reps, rhs as int));
        }
    }
}

#[derive(Debug)]
pub struct OptimizedCompiler;

impl Default for OptimizedCompiler {
    fn default() -> (r: Self)
        ensures
            r == OptimizedCompiler,
    {
        OptimizedCompiler
    }
}

impl OptimizedCompiler {
    /// Compiles straight-line numeric code. `float_results[i]` is the double,
    /// as bits, that input `i` computes where its operands do not fold as
    /// integers. Valid inputs with a return compile, and no others.
    pub fn compile(&mut self, inputs: &[OptimizedInput], float_results: &[u64]) -> (r: Result<
        OptimizedFunction,
        OptimizedCompileError,
    >)
        requires
            float_results@.len() == inputs@.len(),
        ensures
            r matches Ok(f) ==> compiled(inputs@, float_results@, f@),
            r is Ok <==> (forall|i: int| 0 <= i < inputs@.len() ==> #[trigger] valid_input(inputs@, i)) && (exists|i: int|
                0 <= i < inputs@.len() && #[trigger] inputs@[i] is Return),
            r matches Err(e) && e == OptimizedCompileError::InvalidValue <==> exists|i: int|
                0 <= i < inputs@.len() && !#[trigger] valid_input(inputs@, i),
            r matches Err(e) && e == OptimizedCompileError::MissingReturn <==> (forall|i: int|
                0 <= i < inputs@.len() ==> #[trigger] valid_input(inputs@, i)) && (forall|i: int|
                0 <= i < inputs@.len() ==> !(#[trigger] inputs@[i] is Return)),
    {
        let mut constants: Vec<Option<NumericConstant>> = Vec::new();
        let mut representatives: Vec<u32> = Vec::new();
        let mut operands: Vec<Option<(u32, u32)>> = Vec::new();
        let mut return_value: Option<u32> = None;
        let mut boxes_elided: u64 = 0;
        let mut cse_eliminated: u64 = 0;
        let ghost binary = |i: int| inputs@[i] is Binary;
        let n: usize = inputs.len();
        let mut i: usize = 0;
        while i < n
            invariant
                n == inputs@.len() == float_results@.len(),
                i <= n,
                i <= u32::MAX + 1,
                constants@.len() == i,
                representatives@.len() == i,
                operands@.len() == i,
                binary == (|i: int| inputs@[i] is Binary),
                prefix_ok(inputs@, float_results@, representatives@, constants@, operands@),
                return_value matches Some(ret) ==> is_return_of(inputs@, representatives@, ret, i as int),
                return_value is None ==> forall|k: int| 0 <= k < i ==> !(#[trigger] inputs@[k] is Return),
                boxes_elided == count(binary, i as nat),
                boxes_elided <= i,
                cse_eliminated == count(|k: int| representatives@[k] != k, i as nat),
                cse_eliminated <= i,
            decreases n - i,
        {
            let ghost old_reps = representatives@;
            if i > 0xffff_ffff {
                assert(!valid_input(inputs@, i as int));
                return Err(OptimizedCompileError::InvalidValue);
            }
            let mut representative: u32 = i as u32;
            let mut folded: Option<NumericConstant> = None;
            let mut operand: Option<(u32, u32)> = None;
            match inputs[i] {
                OptimizedInput::Constant(value) => {
                    folded = Some(value);
                },
                OptimizedInput::Binary { op, lhs, rhs } => {
                    if lhs as usize >= i || rhs as usize >= i {
                        assert(!valid_input(inputs@, i as int));
                        return Err(OptimizedCompileError::InvalidValue);
                    }
                    let l: u32 = representatives[lhs as usize];
                    let r: u32 = representatives[rhs as usize];
                    proof {
                        prefix_value(inputs@, float_results@, representatives@, constants@, operands@, lhs as int);
                        prefix_value(inputs@, float_results@, representatives@, constants@, operands@, rhs as int);
                    }
                    let (lhs_value, rhs_value) = match (constants[l as usize], constants[r as usize]) {
                        (Some(a), Some(b)) => (a, b),
                        _ => {
                            assert(!valid_input(inputs@, i as int));
                            return Err(OptimizedCompileError::InvalidValue);
                        },
                    };
                    boxes_elided = boxes_elided + 1;
                    representative = first_same(inputs, &representatives, op, l, r, i);
                    operand = Some((l, r));
                    folded = Some(
                        match fold(op, lhs_value, rhs_value) {
                            FoldOutcome::Constant(value) => value,
                            FoldOutcome::Double => NumericConstant::Float64(float_results[representative as usize]),
                        },
                    );
                },
                OptimizedInput::Return(value) => {
                    if value as usize >= i {
                        assert(!valid_input(inputs@, i as int));
                        return Err(OptimizedCompileError::InvalidValue);
                    }
                    return_value = Some(representatives[value as usize]);
                },
            }
            if representative as usize != i {
                cse_eliminated = cse_eliminated + 1;
            }
            proof {
                assert(valid_input(inputs@, i as int));
                prefix_step(
                    inputs@,
                    float_results@,
                    representatives@,
                    constants@,
                    operands@,
                    representative,
                    folded,
                    operand,
                );
                let before = |k: int| old_reps[k] != k;
                let after = |k: int| old_reps.push(representative)[k] != k;
                count_same(before, after, i as nat);
                assert(after(i as int) == (representative != i));
                assert(binary(i as int) == (inputs@[i as int] is Binary));
                if return_value is Some {
                    return_step(inputs@, old_reps, representative, i as int, return_value->Some_0);
                }
            }
            operands.push(operand);
            constants.push(folded);
            representatives.push(representative);
            i = i + 1;
        }
        let ret: u32 = match return_value {
            Some(ret) => ret,
            None => {
                return Err(OptimizedCompileError::MissingReturn);
            },
        };
        proof {
            let k = choose|k: int|
                #![trigger inputs@[k]]
                0 <= k < n && inputs@[k] is Return && representatives@[inputs@[k]->Return_0 as int] == ret && (forall|j: int|
                    k < j < n ==> !(#[trigger] inputs@[j] is Return));
            assert(valid_input(inputs@, k));
            assert(representative_of(inputs@, representatives@, inputs@[k]->Return_0 as int));
            assert forall|k: int| 0 <= k < n implies match #[trigger] operands@[k] {
                Some((l, r)) => l < k && r < k,
                None => true,
            } by {
                assert(valid_input(inputs@, k));
                if let OptimizedInput::Binary { op, lhs, rhs } = inputs@[k] {
                    assert(representative_of(inputs@, representatives@, lhs as int));
                    assert(representative_of(inputs@, representatives@, rhs as int));
                }
            }
        }
        let flags: Vec<bool> = live_values(&operands, ret);
        let ghost dead = |k: int| !(inputs@[k] is Return) && !live(operands@, ret as int, k);
        let mut dead_nodes_eliminated: u64 = 0;
        let mut j: usize = 0;
        while j < n
            invariant
                n == inputs@.len() == flags@.len(),
                n <= u32::MAX + 1,
                j <= n,
                dead == (|k: int| !(inputs@[k] is Return) && !live(operands@, ret as int, k)),
                forall|k: int| 0 <= k < n ==> #[trigger] flags@[k] == live(operands@, ret as int, k),
                dead_nodes_eliminated == count(dead, j as nat),
                dead_nodes_eliminated <= j,
            decreases n - j,
        {
            assert(dead(j as int) == (!(inputs@[j as int] is Return) && !flags@[j as int]));
            let is_return: bool = match inputs[j] {
                OptimizedInput::Return(_) => true,
                _ => false,
            };
            if !flags[j] && !is_return {
                dead_nodes_eliminated = dead_nodes_eliminated + 1;
            }
            j = j + 1;
        }
        Ok(
            OptimizedFunction {
                constants,
                representatives,
                operands,
                return_value: ret,
                boxes_elided,
                cse_eliminated,
                dead_nodes_eliminated,
            },
        )
    }
}

/// The first earlier operation `op` on `lhs` and `rhs`, or `i` where there is none.
fn first_same(
    inputs: &[OptimizedInput],
    representatives: &Vec<u32>,
    op: NumericBinaryOp,
    lhs: u32,
    rhs: u32,
    i: usize,
) -> (r: u32)
    requires
        i <= u32::MAX,
        i < inputs@.len(),
        representatives@.len() == i,
        forall|k: int| 0 <= k < i ==> #[trigger] valid_input(inputs@, k),
    ensures
        r <= i,
        forall|j: int| 0 <= j < r ==> !(#[trigger] inputs@[j] matches OptimizedInput::Binary { op: p, lhs: a, rhs: b }
            && p == op && representatives@[a as int] == lhs && representatives@[b as int] == rhs),
        r < i ==> (inputs@[r as int] matches OptimizedInput::Binary { op: p, lhs: a, rhs: b } && p == op
            && representatives@[a as int] == lhs && representatives@[b as int] == rhs),
{
    let mut j: usize = 0;
    while j < i
        invariant
            j <= i,
            i <= u32::MAX,
            i < inputs@.len(),
            representatives@.len() == i,
            forall|k: int| 0 <= k < i ==> #[trigger] valid_input(inputs@, k),
            forall|k: int| 0 <= k < j ==> !(#[trigger] inputs@[k] matches OptimizedInput::Binary { op: p, lhs: a, rhs: b }
                && p == op && representatives@[a as int] == lhs && representatives@[b as int] == rhs),
        decreases i - j,
    {
        assert(valid_input(inputs@, j as int));
        if let OptimizedInput::Binary { op: p, lhs: a, rhs: b } = inputs[j] {
            if p == op && representatives[a as usize] == lhs && representatives[b as usize] == rhs {
                return j as u32;
            }
        }
        j = j + 1;
    }
    i as u32
}

/// Marks the values that contribute to `ret`, from the last value down: every
/// operand precedes its user.
fn live_values(operands: &Vec<Option<(u32, u32)>>, ret: u32) -> (flags: Vec<bool>)
    requires
        ret < operands@.len(),
        forall|k: int| 0 <= k < operands@.len() ==> match #[trigger] operands@[k] {
            Some((l, r)) => l < k && r < k,
            None => true,
        },
    ensures
        flags@.len() == operands@.len(),
        forall|k: int| 0 <= k < operands@.len() ==> #[trigger] flags@[k] == live(operands@, ret as int, k),
{
    let n: usize = operands.len();
    let mut flags: Vec<bool> = Vec::new();
    let mut f: usize = 0;
    while f < n
        invariant
            f <= n,
            flags@.len() == f,
            forall|k: int| 0 <= k < f ==> flags@[k] == (k == ret),
        decreases n - f,
    {
        flags.push(f == ret as usize);
        f = f + 1;
    }
    let mut i: usize = n;
    assert forall|k: int| 0 <= k < n implies #[trigger] flags@[k] == (k == ret || exists|j: int|
        n <= j < n && #[trigger] uses(operands@, j, k) && live(operands@, ret as int, j)) by {}
    while i > 0
        invariant
            i <= n,
            n == operands@.len() == flags@.len(),
            forall|k: int| 0 <= k < operands@.len() ==> match #[trigger] operands@[k] {
                Some((l, r)) => l < k && r < k,
                None => true,
            },
            forall|k: int| i <= k < n ==> #[trigger] flags@[k] == live(operands@, ret as int, k),
            forall|k: int|
                0 <= k < i ==> #[trigger] flags@[k] == (k == ret || exists|j: int|
                    i <= j < n && #[trigger] uses(operands@, j, k) && live(operands@, ret as int, j)),
        decreases i,
    {
        let ghost before = flags@;
        i = i - 1;
        proof {
            assert(before[i as int] == live(operands@, ret as int, i as int)) by {
                if live(operands@, ret as int, i as int) && i != ret {
                    let j = choose|j: int|
                        i < j < operands@.len() && #[trigger] uses(operands@, j, i as int) && live(operands@, ret as int, j);
                    assert(i + 1 <= j < n && uses(operands@, j, i as int) && live(operands@, ret as int, j));
                }
            }
        }
        if flags[i] {
            if let Some((l, r)) = operands[i] {
                flags.set(l as usize, true);
                flags.set(r as usize, true);
            }
        }
        proof {
            assert forall|k: int| 0 <= k < i implies #[trigger] flags@[k] == (k == ret || exists|j: int|
                i <= j < n && #[trigger] uses(operands@, j, k) && live(operands@, ret as int, j)) by {
                assert(before[k] == (k == ret || exists|j: int|
                    i + 1 <= j < n && #[trigger] uses(operands@, j, k) && live(operands@, ret as int, j)));
                if before[i as int] && uses(operands@, i as int, k) {
                    assert(i <= i < n && uses(operands@, i as int, k) && live(operands@, ret as int, i as int));
                }
            }
        }
    }
    flags
}

} // verus!
