//! The escape-time rule for one point of the plane.
//!
//! The caller iterates the recurrence; after each iteration it reports the
//! modulus of the iterate, and the rule says whether the point has settled on
//! a value or wants another iteration.
use crate::config::Mandelbrot;
use crate::ieee::{greater, spec_greater};
use vstd::prelude::*;

verus! {

/// The value of a point whose moduli, iteration by iteration from `from` on,
/// are `norms[from]`, `norms[from + 1]`, ...: the first iteration below
/// `budget` whose modulus is greater than `threshold`, and `budget - 1` where
/// there is none. A trace that ends early exceeds nowhere past its end.
pub open spec fn first_escape(norms: Seq<u64>, threshold: u64, from: int, budget: int) -> int
    decreases norms.len() - from,
{
    if from >= budget || from >= norms.len() || from < 0 {
        budget - 1
    } else if spec_greater(norms[from], threshold) {
        from
    } else {
        first_escape(norms, threshold, from + 1, budget)
    }
}

/// The value of a point with the trace `norms` under a budget of
/// `iterations`.
pub open spec fn point_value(iterations: nat, threshold: u64, norms: Seq<u64>) -> int {
    first_escape(norms, threshold, 0, iterations as int)
}

/// Iteration `k` is the first whose modulus is greater than `threshold`.
pub open spec fn escapes_at(norms: Seq<u64>, threshold: u64, k: int) -> bool {
    &&& 0 <= k < norms.len()
    &&& spec_greater(norms[k], threshold)
    &&& forall|j: int| 0 <= j < k ==> !spec_greater(#[trigger] norms[j], threshold)
}

/// No modulus of the first `budget` iterations is greater than `threshold`.
pub open spec fn never_escapes(norms: Seq<u64>, threshold: u64, budget: int) -> bool {
    forall|j: int|
        0 <= j < budget && j < norms.len() ==> !spec_greater(#[trigger] norms[j], threshold)
}

/// A point in the middle of its iteration, as mathematical values.
pub struct OrbitView {
    pub iterations: nat,
    pub threshold: u64,
    /// The iteration whose modulus is awaited, counted from 0.
    pub index: nat,
}

/// What the rule decides after one iteration.
pub enum StepView {
    Iterate(OrbitView),
    Settled(nat),
}

impl OrbitView {
    pub open spec fn wf(&self) -> bool {
        self.index < self.iterations
    }

    /// The decision on hearing that the awaited iteration has modulus `norm`.
    pub open spec fn observe(&self, norm: u64) -> StepView {
        if spec_greater(norm, self.threshold) {
            StepView::Settled(self.index)
        } else if self.index + 1 >= self.iterations {
            StepView::Settled((self.iterations - 1) as nat)
        } else {
            StepView::Iterate(OrbitView { index: self.index + 1, ..*self })
        }
    }
}

/// A point in the middle of its iteration. The awaited iteration always lies
/// within the budget.
pub struct Orbit {
    iterations: u32,
    threshold: u64,
    index: u32,
}

/// Either the point wants another iteration, or it has its value.
pub enum Step {
    Iterate(Orbit),
    Settled(u32),
}

impl View for Orbit {
    type V = OrbitView;

    closed spec fn view(&self) -> OrbitView {
        OrbitView {
            iterations: self.iterations as nat,
            threshold: self.threshold,
            index: self.index as nat,
        }
    }
}

impl View for Step {
    type V = StepView;

    open spec fn view(&self) -> StepView {
        match self {
            Step::Iterate(o) => StepView::Iterate(o@),
            Step::Settled(v) => StepView::Settled(*v as nat),
        }
    }
}

impl Orbit {
    #[verifier::type_invariant]
    closed spec fn inv(&self) -> bool {
        self@.wf()
    }

    /// The iteration whose modulus is awaited.
    pub fn index(&self) -> (r: u32)
        ensures
            r == self@.index,
            self@.wf(),
    {
        proof {
            use_type_invariant(self);
        }
        self.index
    }

    /// Takes the modulus of the awaited iteration and decides: the point
    /// settles on this iteration's index where the modulus is greater than
    /// the threshold, on the last index of the budget where the budget is
    /// used up, and else wants the next iteration.
    pub fn observe(self, norm: u64) -> (r: Step)
        ensures
            self@.wf(),
            r@ == self@.observe(norm),
            match r {
                Step::Iterate(o) => o@.wf(),
                Step::Settled(v) => v < self@.iterations,
            },
    {
        proof {
            use_type_invariant(&self);
        }
        if greater(norm, self.threshold) {
            Step::Settled(self.index)
        } else if self.index + 1 >= self.iterations {
            Step::Settled(self.iterations - 1)
        } else {
            Step::Iterate(
                Orbit {
                    iterations: self.iterations,
                    threshold: self.threshold,
                    index: self.index + 1,
                },
            )
        }
    }
}

impl Mandelbrot {
    /// A point before its first iteration.
    pub fn orbit(&self) -> (r: Orbit)
        ensures
            r@ == (OrbitView {
                iterations: self@.iterations,
                threshold: self@.threshold,
                index: 0,
            }),
            r@.wf(),
    {
        let iterations: u32 = self.iterations();
        Orbit { iterations, threshold: self.threshold(), index: 0 }
    }

    /// The value of the point whose iterations have the moduli `norms`, in
    /// order. Moduli past the first escape, or past the budget, are not
    /// read.
    pub fn compute_point_value(&self, norms: &Vec<u64>) -> (r: u32)
        ensures
            r == point_value(self@.iterations, self@.threshold, norms@),
            r < self@.iterations,
    {
        let last: u32 = self.iterations() - 1;
        let mut orbit: Orbit = self.orbit();
        let mut k: usize = 0;
        while k < norms.len()
            invariant
                self@.wf(),
                k <= norms@.len(),
                orbit@.wf(),
                orbit@.index == k,
                orbit@.iterations == self@.iterations,
                orbit@.threshold == self@.threshold,
                point_value(self@.iterations, self@.threshold, norms@) == first_escape(
                    norms@,
                    self@.threshold,
                    k as int,
                    self@.iterations as int,
                ),
            decreases norms@.len() - k,
        {
            proof {
                lemma_observe_follows_trace(orbit@, norms@);
            }
            match orbit.observe(norms[k]) {
                Step::Settled(v) => {
                    return v;
                },
                Step::Iterate(next) => {
                    orbit = next;
                    k = k + 1;
                },
            }
        }
        last
    }
}

/// A point value lies within the budget: it is at least 0 and at most
/// `iterations - 1`.
pub proof fn lemma_point_value_in_budget(iterations: nat, threshold: u64, norms: Seq<u64>)
    requires
        iterations >= 1,
    ensures
        0 <= point_value(iterations, threshold, norms) < iterations,
{
    lemma_first_escape_in_budget(norms, threshold, 0, iterations as int);
}

proof fn lemma_first_escape_in_budget(norms: Seq<u64>, threshold: u64, from: int, budget: int)
    requires
        budget >= 1,
        from >= 0,
    ensures
        0 <= first_escape(norms, threshold, from, budget) < budget,
    decreases norms.len() - from,
{
    if from >= budget || from >= norms.len() {
    } else if spec_greater(norms[from], threshold) {
    } else {
        lemma_first_escape_in_budget(norms, threshold, from + 1, budget);
    }
}

/// A point whose modulus first exceeds the threshold on iteration `k`, within
/// the budget, has the value `k`.
pub proof fn lemma_escape_yields_its_iteration(
    iterations: nat,
    threshold: u64,
    norms: Seq<u64>,
    k: int,
)
    requires
        k < iterations,
        escapes_at(norms, threshold, k),
    ensures
        point_value(iterations, threshold, norms) == k,
{
    lemma_first_escape_skips(norms, threshold, 0, k, iterations as int);
}

proof fn lemma_first_escape_skips(norms: Seq<u64>, threshold: u64, from: int, k: int, budget: int)
    requires
        0 <= from <= k < budget,
        escapes_at(norms, threshold, k),
    ensures
        first_escape(norms, threshold, from, budget) == k,
    decreases k - from,
{
    if from < k {
        assert(!spec_greater(norms[from], threshold));
        lemma_first_escape_skips(norms, threshold, from + 1, k, budget);
    }
}

/// A point whose modulus never exceeds the threshold within the budget has
/// the value `iterations - 1`.
pub proof fn lemma_no_escape_yields_last(iterations: nat, threshold: u64, norms: Seq<u64>)
    requires
        iterations >= 1,
        never_escapes(norms, threshold, iterations as int),
    ensures
        point_value(iterations, threshold, norms) == iterations - 1,
{
    lemma_first_escape_runs_out(norms, threshold, 0, iterations as int);
}

proof fn lemma_first_escape_runs_out(norms: Seq<u64>, threshold: u64, from: int, budget: int)
    requires
        from >= 0,
        never_escapes(norms, threshold, budget),
    ensures
        first_escape(norms, threshold, from, budget) == budget - 1,
    decreases norms.len() - from,
{
    if from >= budget || from >= norms.len() {
    } else {
        assert(!spec_greater(norms[from], threshold));
        lemma_first_escape_runs_out(norms, threshold, from + 1, budget);
    }
}

/// The rule asks for at most `iterations` iterations: a step that goes on
/// awaits the next iteration, still within the budget, under the same budget
/// and threshold; a step that settles gives the awaited iteration where its
/// modulus exceeds the threshold, and else has used the budget up and gives
/// its last index.
pub proof fn lemma_observe_uses_budget(orbit: OrbitView, norm: u64)
    requires
        orbit.wf(),
    ensures
        match orbit.observe(norm) {
            StepView::Iterate(next) => {
                &&& next.wf()
                &&& next.iterations == orbit.iterations
                &&& next.threshold == orbit.threshold
                &&& next.index == orbit.index + 1
                &&& !spec_greater(norm, orbit.threshold)
            },
            StepView::Settled(v) => {
                &&& v < orbit.iterations
                &&& spec_greater(norm, orbit.threshold) ==> v == orbit.index
                &&& !spec_greater(norm, orbit.threshold) ==> v == orbit.iterations - 1
                    && orbit.index + 1 == orbit.iterations
            },
        },
{
}

/// Driving the step rule along a trace gives the point value: a step that
/// settles gives the value of the trace from that iteration on, and a step
/// that goes on leaves that value to the next iteration.
pub proof fn lemma_observe_follows_trace(orbit: OrbitView, norms: Seq<u64>)
    requires
        orbit.wf(),
        orbit.index < norms.len(),
    ensures
        match orbit.observe(norms[orbit.index as int]) {
            StepView::Settled(v) => v == first_escape(
                norms,
                orbit.threshold,
                orbit.index as int,
                orbit.iterations as int,
            ),
            StepView::Iterate(next) => next.wf() && first_escape(
                norms,
                orbit.threshold,
                next.index as int,
                next.iterations as int,
            ) == first_escape(norms, orbit.threshold, orbit.index as int, orbit.iterations as int),
        },
{
    let from = orbit.index as int;
    let budget = orbit.iterations as int;
    if !spec_greater(norms[from], orbit.threshold) && from + 1 >= budget {
        assert(first_escape(norms, orbit.threshold, from + 1, budget) == budget - 1);
    }
}

} // verus!
