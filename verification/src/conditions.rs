//! The simulated conditions of the fixed-total-noise milestones: chain
//! lengths, Hilbert dimensions and the total dephasing rate shared out
//! equally over the chain sites, kept as exact fractions, and the time-step
//! schedules.
use vstd::prelude::*;
use vstd::arithmetic::power2::pow2;

verus! {

/// The number of load levels coupled to the chain.
pub const LOAD_DIM: usize = 3;

/// A non-negative fraction `num / den`.
#[derive(Debug, Clone, Copy, PartialEq, Eq)]
pub struct Ratio {
    pub num: u64,
    pub den: u64,
}

/// One simulated condition: the chain length, the Hilbert dimension of chain
/// and load, and the total dephasing rate over all chain sites.
#[derive(Debug, Clone, Copy, PartialEq, Eq)]
pub struct ConditionSpec {
    pub n: usize,
    pub dim: usize,
    pub total_gamma: Ratio,
}

impl ConditionSpec {
    /// A condition whose numbers are consistent: a nonempty chain, a positive
    /// denominator and the dimension of `n` qubits times the load.
    pub open spec fn wf(self) -> bool {
        &&& self.n > 0
        &&& self.total_gamma.den > 0
        &&& self.total_gamma.den as int * self.n as int <= u64::MAX
        &&& self.dim == LOAD_DIM as int * pow2(self.n as nat)
    }

    /// The dephasing rate of each chain site: the total divided by the chain
    /// length.
    pub fn gamma_site(&self) -> (g: Ratio)
        requires
            self.n > 0,
            self.total_gamma.den as int * self.n as int <= u64::MAX,
        ensures
            g.num == self.total_gamma.num,
            g.den == self.total_gamma.den * self.n,
    {
        Ratio { num: self.total_gamma.num, den: self.total_gamma.den * (self.n as u64) }
    }
}

/// Every chain site carries `gamma_site`, so the sites together carry the
/// total rate: `n * gamma_site == total_gamma`.
pub proof fn site_rates_sum_to_total(spec: ConditionSpec, g: Ratio)
    requires
        spec.wf(),
        g.num == spec.total_gamma.num,
        g.den == spec.total_gamma.den * spec.n,
    ensures
        g.num * spec.n * spec.total_gamma.den == spec.total_gamma.num * g.den,
{
    assert(g.num * spec.n * spec.total_gamma.den == spec.total_gamma.num * (spec.total_gamma.den
        * spec.n)) by (nonlinear_arith)
        requires
            g.num == spec.total_gamma.num,
    ;
}

fn spec_of(n: usize, dim: usize, num: u64, den: u64) -> (s: ConditionSpec)
    ensures
        s == (ConditionSpec { n, dim, total_gamma: Ratio { num, den } }),
{
    ConditionSpec { n, dim, total_gamma: Ratio { num, den } }
}

/// The conditions of the dt-halving validation.
pub open spec fn dt_halving_spec_list() -> Seq<ConditionSpec> {
    seq![
        ConditionSpec { n: 3, dim: 24, total_gamma: Ratio { num: 3, den: 2 } },
        ConditionSpec { n: 7, dim: 384, total_gamma: Ratio { num: 3, den: 2 } },
        ConditionSpec { n: 3, dim: 24, total_gamma: Ratio { num: 3, den: 1 } },
        ConditionSpec { n: 7, dim: 384, total_gamma: Ratio { num: 3, den: 1 } },
]
}

/// The conditions of the total-rate-3 comparison.
pub open spec fn gamma_3_spec_list() -> Seq<ConditionSpec> {
    seq![
        ConditionSpec { n: 3, dim: 24, total_gamma: Ratio { num: 3, den: 1 } },
        ConditionSpec { n: 5, dim: 96, total_gamma: Ratio { num: 3, den: 1 } },
        ConditionSpec { n: 7, dim: 384, total_gamma: Ratio { num: 3, den: 1 } },
]
}

/// The four conditions of the dt-halving validation: chain lengths 3 and 7
/// at total rates 3/2 and 3.
pub fn dt_halving_specs() -> (specs: Vec<ConditionSpec>)
    ensures
        specs@ == dt_halving_spec_list(),
{
    let specs = vec![
        spec_of(3, 24, 3, 2),
        spec_of(7, 384, 3, 2),
        spec_of(3, 24, 3, 1),
        spec_of(7, 384, 3, 1),
    ];
    proof {
        assert(specs@ =~= seq![
            ConditionSpec { n: 3, dim: 24, total_gamma: Ratio { num: 3, den: 2 } },
            ConditionSpec { n: 7, dim: 384, total_gamma: Ratio { num: 3, den: 2 } },
            ConditionSpec { n: 3, dim: 24, total_gamma: Ratio { num: 3, den: 1 } },
            ConditionSpec { n: 7, dim: 384, total_gamma: Ratio { num: 3, den: 1 } },
        ]);
    }
    specs
}

/// The three conditions of the total-rate-3 comparison: chain lengths 3, 5
/// and 7.
pub fn gamma_3_specs() -> (specs: Vec<ConditionSpec>)
    ensures
        specs@ == gamma_3_spec_list(),
{
    let specs = vec![spec_of(3, 24, 3, 1), spec_of(5, 96, 3, 1), spec_of(7, 384, 3, 1)];
    proof {
        assert(specs@ =~= seq![
            ConditionSpec { n: 3, dim: 24, total_gamma: Ratio { num: 3, den: 1 } },
            ConditionSpec { n: 5, dim: 96, total_gamma: Ratio { num: 3, den: 1 } },
            ConditionSpec { n: 7, dim: 384, total_gamma: Ratio { num: 3, den: 1 } },
        ]);
    }
    specs
}

/// The listed conditions are consistent: each dimension is three load levels
/// times the chain's qubit space, and each total rate has a positive
/// denominator.
pub proof fn listed_specs_consistent()
    ensures
        forall|i: int| 0 <= i < 4 ==> (#[trigger] dt_halving_spec_list()[i]).wf(),
        forall|i: int| 0 <= i < 3 ==> (#[trigger] gamma_3_spec_list()[i]).wf(),
{
    vstd::arithmetic::power2::lemma2_to64();
}

/// A fixed-step schedule: the step `dt`, the number of steps and how many
/// steps lie between saved states.
#[derive(Debug, Clone, Copy, PartialEq, Eq)]
pub struct StepSchedule {
    pub dt: Ratio,
    pub steps: usize,
    pub save_every_steps: usize,
    pub saved_points: usize,
}

/// The halved schedule of the dt-halving validation: dt = 1/800 over 8000
/// steps, a state saved every 8 steps, 1001 saved states.
pub fn dt_halving_schedule() -> (s: StepSchedule)
    ensures
        s == (StepSchedule {
            dt: Ratio { num: 1, den: 800 },
            steps: 8000,
            save_every_steps: 8,
            saved_points: 1001,
        }),
{
    StepSchedule { dt: Ratio { num: 1, den: 800 }, steps: 8000, save_every_steps: 8, saved_points: 1001 }
}

/// The schedule of the total-rate-3 comparison: dt = 1/400 over 4000 steps, a
/// state saved every 4 steps, 1001 saved states.
pub fn gamma_3_schedule() -> (s: StepSchedule)
    ensures
        s == (StepSchedule {
            dt: Ratio { num: 1, den: 400 },
            steps: 4000,
            save_every_steps: 4,
            saved_points: 1001,
        }),
{
    StepSchedule { dt: Ratio { num: 1, den: 400 }, steps: 4000, save_every_steps: 4, saved_points: 1001 }
}

/// Both schedules reach t = 10, save every 0.01 time units, and save the
/// initial state plus one state per saving interval.
pub proof fn schedules_cover_same_times(s: StepSchedule)
    requires
        s == (StepSchedule {
            dt: Ratio { num: 1, den: 800 },
            steps: 8000,
            save_every_steps: 8,
            saved_points: 1001,
        }) || s == (StepSchedule {
            dt: Ratio { num: 1, den: 400 },
            steps: 4000,
            save_every_steps: 4,
            saved_points: 1001,
        }),
    ensures
        s.steps * s.dt.num == 10 * s.dt.den,
        s.save_every_steps * s.dt.num * 100 == s.dt.den,
        s.steps % s.save_every_steps == 0,
        s.steps / s.save_every_steps + 1 == s.saved_points,
{
}

} // verus!
