//! The sampling run: three comparisons against one query, and the tally of
//! which targets matched each sampled window.
use vstd::prelude::*;
use rand::Rng;
use crate::comparison::GenomeComparison;
use crate::matcher::matcher_accepts;

verus! {

/// Counters of a sampling run: one per overlap category, and the total.
#[derive(Debug, Clone, Copy, PartialEq, Eq)]
pub struct SimulationState {
    pub human_only: usize,
    pub human_genome1: usize,
    pub human_genome2: usize,
    pub human_genome3: usize,
    pub human_genome1_genome2: usize,
    pub human_genome1_genome3: usize,
    pub human_genome2_genome3: usize,
    pub human_genome1_genome2_genome3: usize,
    pub total_comparisons: usize,
}

impl SimulationState {
    /// The categories add up to the total.
    pub open spec fn wf(&self) -> bool {
        self.human_only + self.human_genome1 + self.human_genome2 + self.human_genome3
            + self.human_genome1_genome2 + self.human_genome1_genome3
            + self.human_genome2_genome3 + self.human_genome1_genome2_genome3
            == self.total_comparisons
    }

    /// The counters after one sample whose matches against the three targets
    /// were `m1`, `m2`, `m3`: exactly one category and the total go up by one.
    pub open spec fn recorded(self, m1: bool, m2: bool, m3: bool) -> SimulationState {
        let s = SimulationState { total_comparisons: (self.total_comparisons + 1) as usize, ..self };
        if m1 && m2 && m3 {
            SimulationState { human_genome1_genome2_genome3: (self.human_genome1_genome2_genome3 + 1) as usize, ..s }
        } else if m1 && m2 {
            SimulationState { human_genome1_genome2: (self.human_genome1_genome2 + 1) as usize, ..s }
        } else if m1 && m3 {
            SimulationState { human_genome1_genome3: (self.human_genome1_genome3 + 1) as usize, ..s }
        } else if m2 && m3 {
            SimulationState { human_genome2_genome3: (self.human_genome2_genome3 + 1) as usize, ..s }
        } else if m1 {
            SimulationState { human_genome1: (self.human_genome1 + 1) as usize, ..s }
        } else if m2 {
            SimulationState { human_genome2: (self.human_genome2 + 1) as usize, ..s }
        } else if m3 {
            SimulationState { human_genome3: (self.human_genome3 + 1) as usize, ..s }
        } else {
            SimulationState { human_only: (self.human_only + 1) as usize, ..s }
        }
    }

    /// Counts one sample in its category and in the total.
    pub fn record(&mut self, m1: bool, m2: bool, m3: bool)
        requires
            old(self).wf(),
            old(self).total_comparisons < usize::MAX,
        ensures
            *final(self) == old(self).recorded(m1, m2, m3),
            final(self).wf(),
    {
        match (m1, m2, m3) {
            (true, true, true) => self.human_genome1_genome2_genome3 += 1,
            (true, true, false) => self.human_genome1_genome2 += 1,
            (true, false, true) => self.human_genome1_genome3 += 1,
            (false, true, true) => self.human_genome2_genome3 += 1,
            (true, false, false) => self.human_genome1 += 1,
            (false, true, false) => self.human_genome2 += 1,
            (false, false, true) => self.human_genome3 += 1,
            (false, false, false) => self.human_only += 1,
        }
        self.total_comparisons += 1;
    }
}

/// All counters at zero.
pub open spec fn zeroed_state() -> SimulationState {
    SimulationState {
        human_only: 0,
        human_genome1: 0,
        human_genome2: 0,
        human_genome3: 0,
        human_genome1_genome2: 0,
        human_genome1_genome3: 0,
        human_genome2_genome3: 0,
        human_genome1_genome2_genome3: 0,
        total_comparisons: 0,
    }
}

impl Default for SimulationState {
    fn default() -> (r: Self)
        ensures
            r == zeroed_state(),
            r.wf(),
    {
        SimulationState {
            human_only: 0,
            human_genome1: 0,
            human_genome2: 0,
            human_genome3: 0,
            human_genome1_genome2: 0,
            human_genome1_genome3: 0,
            human_genome2_genome3: 0,
            human_genome1_genome2_genome3: 0,
            total_comparisons: 0,
        }
    }
}

/// Parameters of a sampling run and the sources and names of its sequences.
#[derive(Debug, Clone)]
pub struct SimulationConfig {
    pub chunk_size: u32,
    pub max_differences: u32,
    pub num_processes: usize,
    pub update_interval: usize,
    pub human_genome_path: String,
    pub genome1_path: String,
    pub genome2_path: String,
    pub genome3_path: String,
    pub genome1_name: String,
    pub genome2_name: String,
    pub genome3_name: String,
}

/// Every field of `a` equals the one of `b`.
pub open spec fn same_config(a: SimulationConfig, b: SimulationConfig) -> bool {
    &&& a.chunk_size == b.chunk_size
    &&& a.max_differences == b.max_differences
    &&& a.num_processes == b.num_processes
    &&& a.update_interval == b.update_interval
    &&& a.human_genome_path@ == b.human_genome_path@
    &&& a.genome1_path@ == b.genome1_path@
    &&& a.genome2_path@ == b.genome2_path@
    &&& a.genome3_path@ == b.genome3_path@
    &&& a.genome1_name@ == b.genome1_name@
    &&& a.genome2_name@ == b.genome2_name@
    &&& a.genome3_name@ == b.genome3_name@
}

/// A comparison that fits the run: well formed, with the run's chunk size and
/// the run's query, which is at least one chunk long.
pub open spec fn fits_run(g: GenomeComparison, chunk_size: u32, query: Seq<u8>) -> bool {
    &&& g.wf()
    &&& g.chunk() == chunk_size
    &&& g.query() == query
    &&& chunk_size <= query.len()
}

/// No counter of `b` is below the same counter of `a`.
pub open spec fn no_decrease(a: SimulationState, b: SimulationState) -> bool {
    &&& a.human_only <= b.human_only
    &&& a.human_genome1 <= b.human_genome1
    &&& a.human_genome2 <= b.human_genome2
    &&& a.human_genome3 <= b.human_genome3
    &&& a.human_genome1_genome2 <= b.human_genome1_genome2
    &&& a.human_genome1_genome3 <= b.human_genome1_genome3
    &&& a.human_genome2_genome3 <= b.human_genome2_genome3
    &&& a.human_genome1_genome2_genome3 <= b.human_genome1_genome2_genome3
    &&& a.total_comparisons <= b.total_comparisons
}

/// The counters `s` after recording each sample of `outs` in order.
pub open spec fn recorded_all(s: SimulationState, outs: Seq<(bool, bool, bool)>) -> SimulationState
    decreases outs.len(),
{
    if outs.len() == 0 {
        s
    } else {
        let o = outs.last();
        recorded_all(s, outs.drop_last()).recorded(o.0, o.1, o.2)
    }
}

/// What the comparison `g` answers for the window at `chunk_start`.
pub open spec fn answer(g: GenomeComparison, chunk_start: nat) -> bool {
    matcher_accepts(
        &g.index(),
        g.query().subrange(chunk_start as int, chunk_start + g.chunk()),
        g.target(),
        g.max_diff() as nat,
    )
}

/// A sampling run over one query and two or three targets.
pub struct Simulation {
    config: SimulationConfig,
    state: SimulationState,
    genome1_comparison: GenomeComparison,
    genome2_comparison: GenomeComparison,
    genome3_comparison: Option<GenomeComparison>,
}

/// Relies on rand's `Rng::gen_range` over `thread_rng`: a value drawn from `0..=max`.
#[verifier::external_body]
fn random_start(max: usize) -> (r: usize)
    ensures
        r <= max,
{
    rand::thread_rng().gen_range(0..=max)
}

impl Simulation {
    pub closed spec fn config(&self) -> SimulationConfig {
        self.config
    }

    pub closed spec fn state(&self) -> SimulationState {
        self.state
    }

    pub closed spec fn first(&self) -> GenomeComparison {
        self.genome1_comparison
    }

    pub closed spec fn second(&self) -> GenomeComparison {
        self.genome2_comparison
    }

    pub closed spec fn third(&self) -> Option<GenomeComparison> {
        self.genome3_comparison
    }

    /// Length of the query that every comparison of the run holds.
    pub open spec fn query_len(&self) -> nat {
        self.first().query().len()
    }

    /// All comparisons fit the run and the counters add up.
    pub open spec fn wf(&self) -> bool {
        &&& self.state().wf()
        &&& fits_run(self.first(), self.config().chunk_size, self.first().query())
        &&& fits_run(self.second(), self.config().chunk_size, self.first().query())
        &&& (self.third() matches Some(g) ==> fits_run(
            g,
            self.config().chunk_size,
            self.first().query(),
        ))
    }

    /// The three answers for the window at `chunk_start`; without a third
    /// target the third is false.
    pub open spec fn answers(&self, chunk_start: nat) -> (bool, bool, bool) {
        (
            answer(self.first(), chunk_start),
            answer(self.second(), chunk_start),
            match self.third() {
                Some(g) => answer(g, chunk_start),
                None => false,
            },
        )
    }

    /// `out` is what the run answers for some window of the query.
    pub open spec fn sampled(&self, out: (bool, bool, bool)) -> bool {
        exists|chunk_start: nat|
            chunk_start + self.config().chunk_size <= self.query_len() && out
                == #[trigger] self.answers(chunk_start)
    }

    /// Starts a run over comparisons built from one query, with zeroed counters.
    pub fn new(
        config: SimulationConfig,
        genome1_comparison: GenomeComparison,
        genome2_comparison: GenomeComparison,
        genome3_comparison: Option<GenomeComparison>,
    ) -> (r: Self)
        requires
            fits_run(genome1_comparison, config.chunk_size, genome1_comparison.query()),
            fits_run(genome2_comparison, config.chunk_size, genome1_comparison.query()),
            genome3_comparison matches Some(g) ==> fits_run(
                g,
                config.chunk_size,
                genome1_comparison.query(),
            ),
        ensures
            r.wf(),
            r.config() == config,
            r.state() == zeroed_state(),
            r.first() == genome1_comparison,
            r.second() == genome2_comparison,
            r.third() == genome3_comparison,
    {
        Simulation {
            config,
            state: SimulationState::default(),
            genome1_comparison,
            genome2_comparison,
            genome3_comparison,
        }
    }

    /// Compares the query window at `chunk_start` against each target.
    pub fn compare_at(&self, chunk_start: usize) -> (r: (bool, bool, bool))
        requires
            self.wf(),
            chunk_start + self.config().chunk_size <= self.query_len(),
        ensures
            r == self.answers(chunk_start as nat),
    {
        let m1 = self.genome1_comparison.compare(chunk_start);
        let m2 = self.genome2_comparison.compare(chunk_start);
        let m3 = match &self.genome3_comparison {
            Some(g) => g.compare(chunk_start),
            None => false,
        };
        (m1, m2, m3)
    }

    /// Compares a window drawn at random from the query against each target.
    pub fn run_comparison(&self) -> (r: (bool, bool, bool))
        requires
            self.wf(),
        ensures
            self.sampled(r),
    {
        let query_len = self.genome1_comparison.get_query_genome_len();
        let max_start = query_len - self.config.chunk_size as usize;
        let chunk_start = random_start(max_start);
        let r = self.compare_at(chunk_start);
        assert(r == self.answers(chunk_start as nat));
        r
    }

    /// Counts one sample with the given answers.
    pub fn update_state(&mut self, genome1_match: bool, genome2_match: bool, genome3_match: bool)
        requires
            old(self).wf(),
            old(self).state().total_comparisons < usize::MAX,
        ensures
            final(self).wf(),
            final(self).state() == old(self).state().recorded(
                genome1_match,
                genome2_match,
                genome3_match,
            ),
            final(self).config() == old(self).config(),
            final(self).first() == old(self).first(),
            final(self).second() == old(self).second(),
            final(self).third() == old(self).third(),
    {
        self.state.record(genome1_match, genome2_match, genome3_match);
    }

    /// Draws and counts `num_comparisons` samples: each is the run's answer
    /// for some window of the query, recorded in its category.
    pub fn run_simulation(&mut self, num_comparisons: usize)
        requires
            old(self).wf(),
            old(self).state().total_comparisons + num_comparisons <= usize::MAX,
        ensures
            final(self).wf(),
            final(self).state().total_comparisons == old(self).state().total_comparisons
                + num_comparisons,
            no_decrease(old(self).state(), final(self).state()),
            exists|outs: Seq<(bool, bool, bool)>|
                outs.len() == num_comparisons && (forall|i: int|
                    0 <= i < outs.len() ==> old(self).sampled(#[trigger] outs[i]))
                    && final(self).state() == recorded_all(old(self).state(), outs),
            final(self).config() == old(self).config(),
            final(self).first() == old(self).first(),
            final(self).second() == old(self).second(),
            final(self).third() == old(self).third(),
    {
        let mut done: usize = 0;
        let ghost mut outs: Seq<(bool, bool, bool)> = Seq::empty();
        while done < num_comparisons
            invariant
                self.wf(),
                outs.len() == done,
                forall|i: int| 0 <= i < outs.len() ==> old(self).sampled(#[trigger] outs[i]),
                self.state() == recorded_all(old(self).state(), outs),
                no_decrease(old(self).state(), self.state()),
                done <= num_comparisons,
                self.state().total_comparisons == old(self).state().total_comparisons + done,
                old(self).state().total_comparisons + num_comparisons <= usize::MAX,
                self.config() == old(self).config(),
                self.first() == old(self).first(),
                self.second() == old(self).second(),
                self.third() == old(self).third(),
            decreases num_comparisons - done,
        {
            let (m1, m2, m3) = self.run_comparison();
            proof {
                let cs = choose|cs: nat|
                    cs + self.config().chunk_size <= self.query_len() && (m1, m2, m3)
                        == #[trigger] self.answers(cs);
                assert(old(self).answers(cs) == self.answers(cs));
                assert(old(self).sampled((m1, m2, m3)));
            }
            self.update_state(m1, m2, m3);
            proof {
                let prev = outs;
                outs = outs.push((m1, m2, m3));
                assert(outs.drop_last() =~= prev);
            }
            done += 1;
        }
    }

    /// A copy of the counters.
    pub fn get_state(&self) -> (r: SimulationState)
        ensures
            r == self.state(),
    {
        self.state
    }

    /// A copy of the configuration.
    pub fn get_config(&self) -> (r: SimulationConfig)
        ensures
            same_config(r, self.config()),
    {
        SimulationConfig {
            chunk_size: self.config.chunk_size,
            max_differences: self.config.max_differences,
            num_processes: self.config.num_processes,
            update_interval: self.config.update_interval,
            human_genome_path: self.config.human_genome_path.clone(),
            genome1_path: self.config.genome1_path.clone(),
            genome2_path: self.config.genome2_path.clone(),
            genome3_path: self.config.genome3_path.clone(),
            genome1_name: self.config.genome1_name.clone(),
            genome2_name: self.config.genome2_name.clone(),
            genome3_name: self.config.genome3_name.clone(),
        }
    }
}

} // verus!
