//! The trial log: how many timed passes are planned, which one is running,
//! what each finished pass took and which of them was the fastest.

use vstd::prelude::*;

verus! {

/// `best` is the least of `samples`: nothing where there is no sample, and
/// otherwise a sample that no other sample undercuts.
pub open spec fn is_best_of(samples: Seq<u64>, best: Option<u64>) -> bool {
    match best {
        None => samples.len() == 0,
        Some(least) => {
            &&& samples.contains(least)
            &&& forall|i: int| 0 <= i < samples.len() ==> least <= samples[i]
        },
    }
}

/// No two different values are both the best of the same samples.
pub proof fn lemma_best_is_unique(samples: Seq<u64>, a: Option<u64>, b: Option<u64>)
    requires
        is_best_of(samples, a),
        is_best_of(samples, b),
    ensures
        a == b,
{
    if a.is_some() {
        let i = choose|i: int| 0 <= i < samples.len() && samples[i] == a.unwrap();
        assert(b.is_some());
        let j = choose|j: int| 0 <= j < samples.len() && samples[j] == b.unwrap();
    }
}

/// The best of the samples with one more sample is the smaller of the best
/// so far and that sample.
pub proof fn lemma_best_with_sample(samples: Seq<u64>, best: Option<u64>, sample: u64)
    requires
        is_best_of(samples, best),
    ensures
        is_best_of(
            samples.push(sample),
            match best {
                Some(least) if least <= sample => Some(least),
                _ => Some(sample),
            },
        ),
{
    let longer = samples.push(sample);
    assert(longer[samples.len() as int] == sample);
    match best {
        Some(least) => {
            let i = choose|i: int| 0 <= i < samples.len() && samples[i] == least;
            assert(longer[i] == least);
        },
        None => {},
    }
}

/// What the benchmark is doing.
#[derive(Clone, Copy, Debug, PartialEq, Eq, Structural)]
pub enum Phase {
    /// No pass is being timed.
    Idle,
    /// The pass with this number, counted from one, is being timed.
    Running { trial: usize },
}

/// Why a trial was not closed.
#[derive(Clone, Copy, Debug, PartialEq, Eq, Structural)]
pub enum TrialError {
    /// No trial is running.
    NotRunning,
}

/// The log of a benchmark of a fixed number of trials.
#[derive(Debug)]
pub struct Trials {
    planned: usize,
    running: bool,
    samples: Vec<u64>,
    best: Option<u64>,
    checksum: Option<u64>,
}

impl Trials {
    /// Number of trials of the whole benchmark.
    pub closed spec fn spec_planned(&self) -> usize {
        self.planned
    }

    /// What the benchmark is doing.
    pub closed spec fn spec_phase(&self) -> Phase {
        if self.running {
            Phase::Running { trial: (self.samples@.len() + 1) as usize }
        } else {
            Phase::Idle
        }
    }

    /// The elapsed time of every finished trial, oldest first.
    pub closed spec fn spec_samples(&self) -> Seq<u64> {
        self.samples@
    }

    /// The least elapsed time of the finished trials.
    pub closed spec fn spec_best(&self) -> Option<u64> {
        self.best
    }

    /// The checksum of the trial that finished last.
    pub closed spec fn spec_checksum(&self) -> Option<u64> {
        self.checksum
    }

    /// Never more trials than planned; the running trial is the one after
    /// the finished ones; the best time is the least sample; and there is a
    /// checksum as soon as one trial has finished.
    pub open spec fn wf(&self) -> bool {
        &&& self.spec_samples().len() <= self.spec_planned()
        &&& match self.spec_phase() {
            Phase::Idle => true,
            Phase::Running { trial } => {
                &&& trial == self.spec_samples().len() + 1
                &&& trial <= self.spec_planned()
            },
        }
        &&& is_best_of(self.spec_samples(), self.spec_best())
        &&& self.spec_checksum().is_some() <==> self.spec_samples().len() > 0
    }

    /// Every planned trial has finished.
    pub open spec fn done(&self) -> bool {
        self.spec_phase() == Phase::Idle && self.spec_samples().len() == self.spec_planned()
    }

    /// An idle log of `planned` trials, none of them run.
    pub fn new(planned: usize) -> (log: Trials)
        ensures
            log.wf(),
            log.spec_planned() == planned,
            log.spec_phase() == Phase::Idle,
            log.spec_samples() == Seq::<u64>::empty(),
            log.spec_best() == None::<u64>,
            log.spec_checksum() == None::<u64>,
    {
        Trials { planned, running: false, samples: Vec::new(), best: None, checksum: None }
    }

    /// Number of trials of the whole benchmark.
    #[verifier::when_used_as_spec(spec_planned)]
    pub fn planned(&self) -> (planned: usize)
        ensures
            planned == self.spec_planned(),
    {
        self.planned
    }

    /// Number of finished trials.
    pub fn completed(&self) -> (completed: usize)
        ensures
            completed == self.spec_samples().len(),
    {
        self.samples.len()
    }

    /// What the benchmark is doing.
    pub fn phase(&self) -> (phase: Phase)
        requires
            self.wf(),
        ensures
            phase == self.spec_phase(),
    {
        if self.running {
            Phase::Running { trial: self.samples.len() + 1 }
        } else {
            Phase::Idle
        }
    }

    /// Whether every planned trial has finished.
    pub fn is_done(&self) -> (done: bool)
        ensures
            done == self.done(),
    {
        !self.running && self.samples.len() == self.planned
    }

    /// The elapsed time of every finished trial, oldest first.
    pub fn samples(&self) -> (samples: &Vec<u64>)
        ensures
            samples@ == self.spec_samples(),
    {
        &self.samples
    }

    /// The headline time: the least elapsed time of the finished trials, or
    /// nothing before the first trial has finished.
    pub fn best(&self) -> (best: Option<u64>)
        requires
            self.wf(),
        ensures
            best == self.spec_best(),
            is_best_of(self.spec_samples(), best),
    {
        self.best
    }

    /// The checksum of the trial that finished last, or nothing before the
    /// first trial has finished.
    #[verifier::when_used_as_spec(spec_checksum)]
    pub fn checksum(&self) -> (checksum: Option<u64>)
        ensures
            checksum == self.spec_checksum(),
    {
        self.checksum
    }

    /// Starts the next trial and gives its number, counted from one.  While
    /// a trial is running, or once all planned trials have finished, nothing
    /// starts and nothing changes.
    pub fn begin(&mut self) -> (started: Option<usize>)
        requires
            old(self).wf(),
        ensures
            final(self).wf(),
            final(self).spec_planned() == old(self).spec_planned(),
            final(self).spec_samples() == old(self).spec_samples(),
            final(self).spec_best() == old(self).spec_best(),
            final(self).spec_checksum() == old(self).spec_checksum(),
            started == if old(self).spec_phase() == Phase::Idle && old(self).spec_samples().len()
                < old(self).spec_planned() {
                Some((old(self).spec_samples().len() + 1) as usize)
            } else {
                None
            },
            final(self).spec_phase() == match started {
                Some(trial) => Phase::Running { trial },
                None => old(self).spec_phase(),
            },
    {
        if self.running || self.samples.len() >= self.planned {
            None
        } else {
            self.running = true;
            Some(self.samples.len() + 1)
        }
    }

    /// Closes the running trial with its elapsed time and the checksum of
    /// its pass.  Without a running trial nothing changes.
    pub fn end(&mut self, elapsed: u64, checksum: u64) -> (closed: Result<(), TrialError>)
        requires
            old(self).wf(),
        ensures
            final(self).wf(),
            final(self).spec_planned() == old(self).spec_planned(),
            final(self).spec_phase() == Phase::Idle,
            closed == if old(self).spec_phase() == Phase::Idle {
                Err::<(), TrialError>(TrialError::NotRunning)
            } else {
                Ok::<(), TrialError>(())
            },
            closed.is_ok() ==> {
                &&& final(self).spec_samples() == old(self).spec_samples().push(elapsed)
                &&& final(self).spec_checksum() == Some(checksum)
            },
            closed.is_err() ==> {
                &&& final(self).spec_samples() == old(self).spec_samples()
                &&& final(self).spec_best() == old(self).spec_best()
                &&& final(self).spec_checksum() == old(self).spec_checksum()
            },
    {
        if !self.running {
            return Err(TrialError::NotRunning);
        }
        proof {
            lemma_best_with_sample(self.samples@, self.best, elapsed);
        }
        let best = match self.best {
            Some(least) if least <= elapsed => least,
            _ => elapsed,
        };
        self.samples.push(elapsed);
        self.best = Some(best);
        self.checksum = Some(checksum);
        self.running = false;
        Ok(())
    }
}

} // verus!
