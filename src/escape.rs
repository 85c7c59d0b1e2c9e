//! The escape-time evaluator for the quadratic map `z <- z^2 + c`.
//!
//! The orbit of `c` starts at `z_0 = 0`. Each orbit point is summarised by
//! an [`OrbitSample`], which says where `|z_i|^2` lies relative to the two
//! thresholds of the evaluator (escape above 4, collapse at or below 1e-5).
//! Given those samples, the evaluator decides the escape result.
use vstd::prelude::*;

verus! {

/// Where the squared modulus of one orbit point lies.
#[derive(Clone, Copy, Debug, PartialEq, Eq, Structural)]
pub enum OrbitSample {
    /// `|z|^2 > 4`, or the value is not finite: the orbit has escaped.
    Outside,
    /// `|z|^2 <= 1e-5`: the orbit sits at the origin, the fixed point.
    NearOrigin,
    /// Any other value.
    Inside,
}

/// What the evaluator does after looking at one orbit point.
#[derive(Clone, Copy, Debug, PartialEq, Eq, Structural)]
pub enum EscapeStep {
    /// The evaluation is over, with this result.
    Done(Option<u16>),
    /// Compute the next orbit point and look again.
    Continue,
}

/// The escape result of the orbit whose samples are `orbit`, looked at from
/// index `i` on, under iteration limit `limit`.
pub open spec fn escape_from(orbit: Seq<OrbitSample>, i: nat, limit: nat) -> Option<nat>
    decreases limit - i,
{
    if i >= limit || i >= orbit.len() {
        None
    } else if orbit[i as int] == OrbitSample::Outside {
        Some(i)
    } else if i > 0 && orbit[i as int] == OrbitSample::NearOrigin {
        None
    } else {
        escape_from(orbit, i + 1, limit)
    }
}

/// The escape result of a whole orbit: `Some(n)` when it leaves the disk of
/// radius 2 at iteration `n < limit`, `None` otherwise.
pub open spec fn escape_result(orbit: Seq<OrbitSample>, limit: nat) -> Option<nat> {
    escape_from(orbit, 0, limit)
}

/// An executable escape result read as a mathematical one.
pub open spec fn result_nat(r: Option<u16>) -> Option<nat> {
    match r {
        Some(n) => Some(n as nat),
        None => None,
    }
}

/// One step of the evaluator at iteration `i`, given the sample of `z_i`.
pub open spec fn step_of(i: u16, limit: u16, sample: OrbitSample) -> EscapeStep {
    if i >= limit {
        EscapeStep::Done(None)
    } else if sample == OrbitSample::Outside {
        EscapeStep::Done(Some(i))
    } else if i > 0 && sample == OrbitSample::NearOrigin {
        EscapeStep::Done(None)
    } else {
        EscapeStep::Continue
    }
}

/// Decides what to do at iteration `i` with orbit point `z_i`: stop with an
/// escape at `i`, stop without one, or go on to `z_{i+1}`.
pub fn escape_step(i: u16, limit: u16, sample: OrbitSample) -> (r: EscapeStep)
    ensures
        r == step_of(i, limit, sample),
{
    if i >= limit {
        EscapeStep::Done(None)
    } else {
        match sample {
            OrbitSample::Outside => EscapeStep::Done(Some(i)),
            OrbitSample::NearOrigin => {
                if i > 0 {
                    EscapeStep::Done(None)
                } else {
                    EscapeStep::Continue
                }
            },
            OrbitSample::Inside => EscapeStep::Continue,
        }
    }
}

/// Stepping agrees with the escape result: a finished step gives the result,
/// and a step that goes on leaves it to the next orbit point.
pub proof fn lemma_step_agrees(orbit: Seq<OrbitSample>, i: u16, limit: u16)
    requires
        i < orbit.len() || i >= limit,
    ensures
        i < limit ==> match step_of(i, limit, orbit[i as int]) {
            EscapeStep::Done(r) => result_nat(r) == escape_from(orbit, i as nat, limit as nat),
            EscapeStep::Continue => escape_from(orbit, i as nat, limit as nat) == escape_from(
                orbit,
                i as nat + 1,
                limit as nat,
            ),
        },
        i >= limit ==> escape_from(orbit, i as nat, limit as nat) == None::<nat>,
{
}

/// The escape time of the orbit whose first `limit` samples are in `orbit`.
pub fn escape_time(orbit: &Vec<OrbitSample>, limit: u16) -> (r: Option<u16>)
    requires
        orbit.len() >= limit,
    ensures
        result_nat(r) == escape_result(orbit@, limit as nat),
        r matches Some(n) ==> n < limit,
{
    let mut i: u16 = 0;
    while i < limit
        invariant
            i <= limit,
            limit <= orbit.len(),
            escape_result(orbit@, limit as nat) == escape_from(orbit@, i as nat, limit as nat),
        decreases limit - i,
    {
        let step = escape_step(i, limit, orbit[i as usize]);
        proof {
            lemma_step_agrees(orbit@, i, limit);
        }
        match step {
            EscapeStep::Done(r) => {
                return r;
            },
            EscapeStep::Continue => {},
        }
        i = i + 1;
    }
    None
}

/// An orbit that escapes at iteration `n` under some limit escapes at `n`
/// under every limit above `n`: the unused iteration budget does not matter.
pub proof fn lemma_escape_ignores_unused_budget(
    orbit: Seq<OrbitSample>,
    n: nat,
    limit: nat,
    other_limit: nat,
)
    requires
        escape_result(orbit, limit) == Some(n),
        n < other_limit,
    ensures
        escape_result(orbit, other_limit) == Some(n),
{
    lemma_escape_from_ignores_budget(orbit, 0, n, limit, other_limit);
}

proof fn lemma_escape_from_ignores_budget(
    orbit: Seq<OrbitSample>,
    i: nat,
    n: nat,
    limit: nat,
    other_limit: nat,
)
    requires
        escape_from(orbit, i, limit) == Some(n),
        n < other_limit,
    ensures
        i <= n,
        escape_from(orbit, i, other_limit) == Some(n),
    decreases limit - i,
{
    if i < limit && i < orbit.len() && orbit[i as int] != OrbitSample::Outside && !(i > 0
        && orbit[i as int] == OrbitSample::NearOrigin) {
        lemma_escape_from_ignores_budget(orbit, i + 1, n, limit, other_limit);
    }
}

/// The orbit of `c = 0` stays at the origin, so each of its samples is
/// `NearOrigin`; such an orbit never escapes, whatever the limit.
pub proof fn lemma_origin_never_escapes(orbit: Seq<OrbitSample>, limit: nat)
    requires
        limit >= 1,
        forall|i: int| 0 <= i < orbit.len() ==> orbit[i] == OrbitSample::NearOrigin,
    ensures
        escape_result(orbit, limit) == None::<nat>,
{
    assert(escape_from(orbit, 1, limit) == None::<nat>);
}

} // verus!
