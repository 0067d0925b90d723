//! Where a value came from, and how origins join over a control-flow graph.
use crate::control::is_interruption;
use crate::control::CompileControl;
use crate::control::CompileFailure;
use vstd::prelude::*;

verus! {

#[derive(Clone, Copy, Debug, PartialEq, Eq, Structural)]
pub enum OptProvenance {
    Argument(usize),
    Local(usize),
    ImmediatePrimitive,
    /// The interpreter stack slot at this index owns the value (a helper
    /// wrote it there). Exits and the call bridge leave it in place; it may
    /// be consumed by a call, returned, freed by `drop`, or moved into a
    /// local. Duplication must create a second owner through the DUP helper.
    OwnedSlot,
    Unknown,
}

pub open spec fn merged(lhs: OptProvenance, rhs: OptProvenance) -> OptProvenance {
    if lhs == rhs {
        lhs
    } else {
        OptProvenance::Unknown
    }
}

/// Two origins join to the one they share, or to nothing known.
pub fn merge_opt_provenance(lhs: OptProvenance, rhs: OptProvenance) -> (r: OptProvenance)
    ensures
        r == merged(lhs, rhs),
{
    if lhs == rhs {
        lhs
    } else {
        OptProvenance::Unknown
    }
}

/// Joining is commutative, associative and idempotent, and nothing is known of
/// a join with a value of which nothing is known.
pub proof fn merge_is_a_join(a: OptProvenance, b: OptProvenance, c: OptProvenance)
    ensures
        merged(a, b) == merged(b, a),
        merged(merged(a, b), c) == merged(a, merged(b, c)),
        merged(a, a) == a,
        merged(a, OptProvenance::Unknown) == OptProvenance::Unknown,
{
}

/// The work that an analysis may still do, and the control that may interrupt it.
pub struct ProvenanceBudget<'a> {
    pub work: usize,
    pub control: Option<&'a CompileControl>,
}

/// What a charge comes to, by what the control answers: an interruption comes
/// first, and then the work has to suffice. The work that is left, or why the
/// analysis ends.
pub fn charge_work(checked: Result<(), CompileFailure>, remaining: usize, work: usize) -> (r: Result<usize, CompileFailure>)
    ensures
        checked matches Err(e) ==> r == Err::<usize, CompileFailure>(e),
        checked is Ok ==> r == (if work <= remaining {
            Ok::<usize, CompileFailure>((remaining - work) as usize)
        } else {
            Err(CompileFailure::ResourceLimit)
        }),
{
    match checked {
        Err(e) => Err(e),
        Ok(()) => if work <= remaining {
            Ok(remaining - work)
        } else {
            Err(CompileFailure::ResourceLimit)
        },
    }
}

impl<'a> ProvenanceBudget<'a> {
    /// Takes work from the budget. What the control answers is not fixed here: its
    /// flag belongs to another thread, and the clock runs.
    pub fn charge(&mut self, work: usize) -> (r: Result<(), CompileFailure>)
        ensures
            final(self).control == old(self).control,
            r is Ok ==> old(self).work >= work && final(self).work == old(self).work - work,
            r is Err ==> final(self).work == old(self).work,
            r matches Err(e) ==> {
                ||| e == CompileFailure::ResourceLimit && old(self).work < work
                ||| is_interruption(e) && old(self).control is Some
            },
    {
        let checked = match self.control {
            Some(control) => control.check(),
            None => Ok(()),
        };
        match charge_work(checked, self.work, work) {
            Ok(remaining) => {
                self.work = remaining;
                Ok(())
            },
            Err(e) => Err(e),
        }
    }
}

/// The order of the analysis: nothing yet, then one origin, then unknown.
pub open spec fn below(a: Option<OptProvenance>, b: Option<OptProvenance>) -> bool {
    a is None || a == b || b == Some(OptProvenance::Unknown)
}

pub open spec fn all_below(a: Seq<Option<OptProvenance>>, b: Seq<Option<OptProvenance>>) -> bool {
    a.len() == b.len() && forall|i: int| 0 <= i < a.len() ==> below(#[trigger] a[i], b[i])
}

/// Every phi is at or above each of its inputs.
pub open spec fn closed_under_phis(v: Seq<Option<OptProvenance>>, phis: Seq<Option<Vec<usize>>>) -> bool {
    forall|i: int, k: int|
        #![trigger phis[i]->Some_0@[k]]
        0 <= i < v.len() && phis[i] is Some && 0 <= k < phis[i]->Some_0@.len() ==> below(
            v[phis[i]->Some_0@[k] as int],
            v[i],
        )
}

/// `v` is the least assignment at or above `seed` in which every phi is at or
/// above each of its inputs.
pub open spec fn least_solution(
    seed: Seq<Option<OptProvenance>>,
    phis: Seq<Option<Vec<usize>>>,
    v: Seq<Option<OptProvenance>>,
) -> bool {
    &&& all_below(seed, v)
    &&& closed_under_phis(v, phis)
    &&& forall|w: Seq<Option<OptProvenance>>|
        all_below(seed, w) && #[trigger] closed_under_phis(w, phis) ==> all_below(v, w)
}

/// What has no seed is unknown.
pub open spec fn widened(v: Seq<Option<OptProvenance>>) -> Seq<Option<OptProvenance>> {
    v.map_values(
        |p: Option<OptProvenance>|
            if p is None {
                Some(OptProvenance::Unknown)
            } else {
                p
            },
    )
}

/// The origins that the analysis finds: the least solution over the seeds, in
/// which seedless components become unknown, and the least solution over that.
pub open spec fn resolved(
    seed: Seq<Option<OptProvenance>>,
    phis: Seq<Option<Vec<usize>>>,
    v: Seq<Option<OptProvenance>>,
) -> bool {
    exists|mid: Seq<Option<OptProvenance>>| #[trigger]
        least_solution(seed, phis, mid) && least_solution(widened(mid), phis, v)
}

pub open spec fn phis_in_range(phis: Seq<Option<Vec<usize>>>, len: nat) -> bool {
    forall|i: int, k: int|
        #![trigger phis[i]->Some_0@[k]]
        0 <= i < len && phis[i] is Some && 0 <= k < phis[i]->Some_0@.len() ==> phis[i]->Some_0@[k] < len
}

/// The number of inputs of the first `n` phis.
pub open spec fn input_count(phis: Seq<Option<Vec<usize>>>, n: nat) -> nat
    decreases n,
{
    if n == 0 {
        0
    } else {
        input_count(phis, (n - 1) as nat) + if phis[n - 1] is Some {
            phis[n - 1]->Some_0@.len()
        } else {
            0
        }
    }
}

spec fn height_of(p: Option<OptProvenance>) -> nat {
    match p {
        None => 2,
        Some(OptProvenance::Unknown) => 0,
        Some(_) => 1,
    }
}

spec fn height(v: Seq<Option<OptProvenance>>) -> nat
    decreases v.len(),
{
    if v.len() == 0 {
        0
    } else {
        height(v.drop_last()) + height_of(v.last())
    }
}

proof fn height_update(v: Seq<Option<OptProvenance>>, i: int, p: Option<OptProvenance>)
    requires
        0 <= i < v.len(),
    ensures
        height(v.update(i, p)) == height(v) - height_of(v[i]) + height_of(p),
    decreases v.len(),
{
    let w = v.update(i, p);
    if i == v.len() - 1 {
        assert(w.drop_last() =~= v.drop_last());
    } else {
        height_update(v.drop_last(), i, p);
        assert(w.drop_last() =~= v.drop_last().update(i, p));
    }
}

proof fn height_bound(v: Seq<Option<OptProvenance>>)
    ensures
        height(v) <= 2 * v.len(),
    decreases v.len(),
{
    if v.len() > 0 {
        height_bound(v.drop_last());
    }
}

/// The work that always suffices: every pass but the last lowers the sum of
/// the heights of the values.
pub open spec fn enough_work(len: nat, phis: Seq<Option<Vec<usize>>>) -> nat {
    (2 * len + 1) * (2 * len + input_count(phis, len))
}

/// What resolving costs at least: a pass over the equations that changes
/// nothing, and one more where an origin was found.
pub open spec fn least_work(
    before: Seq<Option<OptProvenance>>,
    phis: Seq<Option<Vec<usize>>>,
    after: Seq<Option<OptProvenance>>,
) -> nat {
    let n = before.len();
    2 * n + input_count(phis, n) + (if after == before {
        0
    } else {
        n + input_count(phis, n)
    })
}

proof fn afford(slack: nat, h: nat, lower: nat, pass: nat, before: nat, after: nat)
    requires
        before >= slack + (h + 1) * pass,
        before - after <= pass,
        lower < h,
    ensures
        after >= slack + (lower + 1) * pass,
{
    assert((h + 1) * pass == h * pass + pass) by (nonlinear_arith);
    assert(h * pass >= (lower + 1) * pass) by (nonlinear_arith)
        requires
            lower < h,
    ;
}

spec fn rows_in_range(phis: Seq<Option<Vec<usize>>>, rows: int, len: nat) -> bool {
    forall|i: int, k: int|
        #![trigger phis[i]->Some_0@[k]]
        0 <= i < rows && phis[i] is Some && 0 <= k < phis[i]->Some_0@.len() ==> phis[i]->Some_0@[k] < len
}

spec fn rows_closed(v: Seq<Option<OptProvenance>>, phis: Seq<Option<Vec<usize>>>, rows: int) -> bool {
    forall|i: int, k: int|
        #![trigger phis[i]->Some_0@[k]]
        0 <= i < rows && phis[i] is Some && 0 <= k < phis[i]->Some_0@.len() ==> below(
            v[phis[i]->Some_0@[k] as int],
            v[i],
        )
}

/// Every solution at or above `seed` is at or above `v`.
spec fn least_so_far(
    seed: Seq<Option<OptProvenance>>,
    phis: Seq<Option<Vec<usize>>>,
    v: Seq<Option<OptProvenance>>,
) -> bool {
    forall|w: Seq<Option<OptProvenance>>|
        all_below(seed, w) && #[trigger] closed_under_phis(w, phis) ==> all_below(v, w)
}

/// `joined` is the join of the first `inputs` inputs in `row`.
spec fn is_join(
    v: Seq<Option<OptProvenance>>,
    row: Seq<usize>,
    inputs: int,
    joined: Option<OptProvenance>,
) -> bool {
    &&& forall|k: int| 0 <= k < inputs ==> below(v[#[trigger] row[k] as int], joined)
    &&& forall|u: Option<OptProvenance>|
        (forall|k: int| 0 <= k < inputs ==> below(v[#[trigger] row[k] as int], u)) ==> #[trigger] below(joined, u)
}

spec fn joined_with(a: Option<OptProvenance>, b: OptProvenance) -> Option<OptProvenance> {
    match a {
        Some(p) => Some(merged(p, b)),
        None => Some(b),
    }
}

proof fn join_step(v: Seq<Option<OptProvenance>>, row: Seq<usize>, inputs: int, joined: Option<OptProvenance>)
    requires
        is_join(v, row, inputs, joined),
        0 <= inputs < row.len(),
    ensures
        is_join(
            v,
            row,
            inputs + 1,
            match v[row[inputs] as int] {
                Some(p) => joined_with(joined, p),
                None => joined,
            },
        ),
{
    let next = match v[row[inputs] as int] {
        Some(p) => joined_with(joined, p),
        None => joined,
    };
    assert forall|u: Option<OptProvenance>|
        (forall|k: int| 0 <= k < inputs + 1 ==> below(v[#[trigger] row[k] as int], u)) implies #[trigger] below(
        next,
        u,
    ) by {
        assert(below(v[row[inputs] as int], u));
        assert(forall|k: int| 0 <= k < inputs ==> below(v[#[trigger] row[k] as int], u));
        assert(below(joined, u));
    }
}

/// Raising phi `i` by the join of its inputs keeps `v` below every solution.
proof fn raise_phi(
    seed: Seq<Option<OptProvenance>>,
    v: Seq<Option<OptProvenance>>,
    phis: Seq<Option<Vec<usize>>>,
    i: int,
    joined: OptProvenance,
)
    requires
        all_below(seed, v),
        least_so_far(seed, phis, v),
        0 <= i < v.len() == phis.len(),
        phis[i] is Some,
        rows_in_range(phis, i + 1, v.len()),
        is_join(v, phis[i]->Some_0@, phis[i]->Some_0@.len() as int, Some(joined)),
    ensures
        all_below(seed, v.update(i, joined_with(v[i], joined))),
        least_so_far(seed, phis, v.update(i, joined_with(v[i], joined))),
{
    let next = v.update(i, joined_with(v[i], joined));
    let row = phis[i]->Some_0@;
    assert forall|k: int| 0 <= k < v.len() implies below(#[trigger] seed[k], next[k]) by {
        assert(below(seed[k], v[k]));
    }
    assert forall|w: Seq<Option<OptProvenance>>| all_below(seed, w) && #[trigger] closed_under_phis(w, phis) implies all_below(
        next,
        w,
    ) by {
        assert(all_below(v, w));
        assert forall|k: int| 0 <= k < row.len() implies below(v[#[trigger] row[k] as int], w[i]) by {
            let input = phis[i]->Some_0@[k] as int;
            assert(below(v[input], w[input]));
            assert(below(w[input], w[i]));
        }
        assert(below(Some(joined), w[i]));
        assert(below(v[i], w[i]));
        assert forall|k: int| 0 <= k < next.len() implies below(#[trigger] next[k], w[k]) by {
            assert(below(v[k], w[k]));
        }
    }
}

proof fn input_count_monotone(phis: Seq<Option<Vec<usize>>>, a: nat, b: nat)
    requires
        a <= b,
    ensures
        input_count(phis, a) <= input_count(phis, b),
    decreases b,
{
    if a < b {
        input_count_monotone(phis, a, (b - 1) as nat);
    }
}

/// With enough work, a pass that is under way can be paid for.
proof fn pass_affordable(phis: Seq<Option<Vec<usize>>>, n: nat, index: nat, k: nat, h: nat, work: nat)
    requires
        index < n,
        work >= (h + 1) * (2 * n + input_count(phis, n)),
        k <= (if phis[index as int] is Some { phis[index as int]->Some_0@.len() } else { 0 }),
    ensures
        work >= n + index + 1 + input_count(phis, index) + k,
{
    input_count_monotone(phis, index + 1, n);
    let pass = 2 * n + input_count(phis, n);
    assert((h + 1) * pass >= pass) by (nonlinear_arith);
}

/// Resolves phi equations in place. Tentative origins are not exposed before
/// every input is resolved: seedless components are widened to unknown, and
/// that uncertainty is propagated again.
pub fn resolve_opt_phi_provenance(
    values: &mut Vec<Option<OptProvenance>>,
    phi_inputs: &Vec<Option<Vec<usize>>>,
    budget: &mut ProvenanceBudget<'_>,
) -> (r: Result<(), CompileFailure>)
    requires
        phi_inputs@.len() == old(values)@.len(),
    ensures
        final(values)@.len() == old(values)@.len(),
        final(budget).control == old(budget).control,
        final(budget).work <= old(budget).work,
        r is Ok && old(budget).work >= enough_work(old(values)@.len(), phi_inputs@)
            ==> final(budget).work >= old(budget).work - enough_work(old(values)@.len(), phi_inputs@),
        r is Ok ==> old(budget).work - final(budget).work >= least_work(old(values)@, phi_inputs@, final(values)@),
        r is Ok ==> phis_in_range(phi_inputs@, old(values)@.len()) && resolved(
            old(values)@,
            phi_inputs@,
            final(values)@,
        ) && (forall|i: int| 0 <= i < final(values)@.len() ==> #[trigger] final(values)@[i] is Some),
        r matches Err(e) ==> {
            ||| is_interruption(e) && old(budget).control is Some
            ||| e == CompileFailure::ResourceLimit && old(budget).work < enough_work(old(values)@.len(), phi_inputs@)
            ||| e == CompileFailure::InvalidArtifact && !phis_in_range(phi_inputs@, old(values)@.len())
        },
{
    let n: usize = values.len();
    let ghost phis = phi_inputs@;
    let ghost seed0 = values@;
    let ghost mut seed = values@;
    let ghost mut mid = values@;
    let ghost mut widening = false;
    let ghost pass = 2 * (n as nat) + input_count(phis, n as nat);
    let ghost enough = budget.work >= enough_work(n as nat, phis);
    let ghost slack: nat = if enough {
        (budget.work - enough_work(n as nat, phis)) as nat
    } else {
        0
    };
    proof {
        height_bound(values@);
        let h = height(values@);
        let m = 2 * (n as nat);
        assert((m + 1) * pass >= (h + 1) * pass) by (nonlinear_arith)
            requires
                h <= m,
        ;
    }
    loop
        invariant
            phis == phi_inputs@,
            n == values@.len() == phis.len() == seed.len() == seed0.len(),
            seed0 == old(values)@,
            pass == 2 * (n as nat) + input_count(phis, n as nat),
            budget.control == old(budget).control,
            budget.work <= old(budget).work,
            values@ != seed0 ==> old(budget).work - budget.work >= n + input_count(phis, n as nat),
            enough == (old(budget).work >= enough_work(n as nat, phis)),
            slack == (if enough { old(budget).work - enough_work(n as nat, phis) } else { 0 }),
            enough ==> budget.work >= slack + (height(values@) + 1) * pass,
            all_below(seed, values@),
            least_so_far(seed, phis, values@),
            !widening ==> seed == seed0,
            widening ==> least_solution(seed0, phis, mid) && seed == widened(mid),
        decreases budget.work,
    {
        let ghost start = values@;
        let ghost start_work = budget.work;
        let mut changed: bool = false;
        let mut index: usize = 0;
        while index < n
            invariant
                phis == phi_inputs@,
                n == values@.len() == phis.len() == seed.len() == start.len(),
                n == old(values)@.len(),
                index <= n,
                pass == 2 * (n as nat) + input_count(phis, n as nat),
                budget.control == old(budget).control,
                budget.work <= start_work <= old(budget).work,
                budget.work == start_work - index - input_count(phis, index as nat),
                enough == (old(budget).work >= enough_work(n as nat, phis)),
                enough ==> start_work >= slack + (height(start) + 1) * pass,
                rows_in_range(phis, index as int, n as nat),
                all_below(seed, values@),
                least_so_far(seed, phis, values@),
                !changed ==> values@ == start,
                changed ==> height(values@) < height(start) && index > 0,
                !changed ==> rows_closed(values@, phis, index as int),
            decreases n - index,
        {
            proof {
                if enough {
                    pass_affordable(phis, n as nat, index as nat, 0, height(start), start_work as nat);
                }
            }
            if let Err(e) = budget.charge(1) {
                return Err(e);
            }
            if let Some(inputs) = &phi_inputs[index] {
                let ghost row = inputs@;
                assert(row == phis[index as int]->Some_0@);
                let mut joined: Option<OptProvenance> = None;
                let mut k: usize = 0;
                while k < inputs.len()
                    invariant
                        phis == phi_inputs@,
                        row == inputs@,
                        row == phis[index as int]->Some_0@,
                        phis[index as int] is Some,
                        n == values@.len() == phis.len() == old(values)@.len(),
                        index < n,
                        k <= row.len(),
                        pass == 2 * (n as nat) + input_count(phis, n as nat),
                        budget.control == old(budget).control,
                        budget.work <= start_work <= old(budget).work,
                        budget.work == start_work - index - 1 - input_count(phis, index as nat) - k,
                        enough == (old(budget).work >= enough_work(n as nat, phis)),
                        enough ==> start_work >= slack + (height(start) + 1) * pass,
                        forall|m: int| 0 <= m < k ==> #[trigger] row[m] < n,
                        is_join(values@, row, k as int, joined),
                    decreases row.len() - k,
                {
                    proof {
                        if enough {
                            pass_affordable(phis, n as nat, index as nat, (k + 1) as nat, height(start), start_work as nat);
                        }
                    }
                    if let Err(e) = budget.charge(1) {
                        return Err(e);
                    }
                    let input: usize = inputs[k];
                    if input >= n {
                        assert(phis[index as int]->Some_0@[k as int] >= n);
                        return Err(CompileFailure::InvalidArtifact);
                    }
                    proof {
                        join_step(values@, row, k as int, joined);
                    }
                    if let Some(provenance) = values[input] {
                        joined = Some(
                            match joined {
                                Some(previous) => merge_opt_provenance(previous, provenance),
                                None => provenance,
                            },
                        );
                    }
                    k = k + 1;
                }
                let ghost before = values@;
                if let Some(merged_inputs) = joined {
                    let (widened_value, same) = match values[index] {
                        Some(previous) => {
                            let w = merge_opt_provenance(previous, merged_inputs);
                            (w, w == previous)
                        },
                        None => (merged_inputs, false),
                    };
                    proof {
                        assert(rows_in_range(phis, index + 1, n as nat));
                        raise_phi(seed, values@, phis, index as int, merged_inputs);
                        height_update(values@, index as int, Some(widened_value));
                    }
                    if !same {
                        values.set(index, Some(widened_value));
                        changed = true;
                    }
                }
                assert(!changed ==> rows_closed(values@, phis, index + 1));
            }
            index = index + 1;
        }
        if !changed {
            assert(closed_under_phis(values@, phis));
            let mut j: usize = 0;
            while j < n
                invariant
                    n == values@.len() == start.len() == old(values)@.len(),
                    phis == phi_inputs@,
                    j <= n,
                    pass == 2 * (n as nat) + input_count(phis, n as nat),
                    budget.control == old(budget).control,
                    budget.work <= start_work <= old(budget).work,
                    budget.work == start_work - n - input_count(phis, n as nat) - j,
                    enough == (old(budget).work >= enough_work(n as nat, phis)),
                    enough ==> start_work >= slack + (height(start) + 1) * pass,
                    forall|k: int| 0 <= k < j ==> values@[k] == widened(start)[k],
                    forall|k: int| j <= k < n ==> values@[k] == start[k],
                    !changed ==> values@ == start && forall|k: int| 0 <= k < j ==> #[trigger] start[k] is Some,
                    changed
                        ==> height(values@) < height(start) && exists|k: int| 0 <= k < n && #[trigger] start[k] is None,
                decreases n - j,
            {
                proof {
                    if enough {
                        let h = height(start);
                        assert((h + 1) * pass >= pass) by (nonlinear_arith);
                    }
                }
                if let Err(e) = budget.charge(1) {
                    return Err(e);
                }
                if values[j].is_none() {
                    proof {
                        height_update(values@, j as int, Some(OptProvenance::Unknown));
                        assert(start[j as int] is None);
                    }
                    values.set(j, Some(OptProvenance::Unknown));
                    changed = true;
                }
                j = j + 1;
            }
            assert(least_solution(seed, phis, start));
            if !changed {
                proof {
                    let h = height(start);
                    assert((h + 1) * pass >= pass) by (nonlinear_arith);
                    assert(widened(start) =~= start);
                    if !widening {
                        assert(least_solution(widened(start), phis, start));
                    }
                    assert(resolved(seed0, phis, values@));
                }
                return Ok(());
            }
            proof {
                assert(values@ =~= widened(start));
                let k = choose|k: int| 0 <= k < n && #[trigger] start[k] is None;
                assert(below(seed[k], start[k]));
                assert(!widening);
                mid = start;
                seed = values@;
                widening = true;
            }
        }
        proof {
            if enough {
                input_count_monotone(phis, 0, n as nat);
                afford(slack, height(start), height(values@), pass, start_work as nat, budget.work as nat);
            }
        }
    }
}

} // verus!
