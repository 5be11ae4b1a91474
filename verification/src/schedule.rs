//! Handing the comparison runs out to the workers and following their
//! progress.

use vstd::prelude::*;
use std::collections::BTreeMap;

verus! {

broadcast use vstd::laws_cmp::group_laws_cmp;

/// The stages a comparison run goes through, in order.
#[derive(Debug, Clone, Copy, PartialEq, Eq, PartialOrd, Ord, Structural)]
pub enum Stage {
    Build,
    GenInput,
    RunBruteforce,
    RunSolver,
    RunChecker,
}

/// The share of the work that a stage stands for, in parts of `total_weight`.
pub open spec fn stage_weight(s: Stage) -> u32 {
    match s {
        Stage::Build => 10,
        Stage::GenInput => 2,
        Stage::RunBruteforce => 15,
        Stage::RunSolver => 20,
        Stage::RunChecker => 5,
    }
}

impl Stage {
    /// The share of the work that the stage stands for.
    pub fn weight(&self) -> (r: u32)
        ensures
            r == stage_weight(*self),
    {
        match self {
            Stage::Build => 10,
            Stage::GenInput => 2,
            Stage::RunBruteforce => 15,
            Stage::RunSolver => 20,
            Stage::RunChecker => 5,
        }
    }

    /// The sum of the weights of all stages.
    pub fn total_weight() -> (r: u32)
        ensures
            r == stage_weight(Stage::Build) + stage_weight(Stage::GenInput) + stage_weight(
                Stage::RunBruteforce,
            ) + stage_weight(Stage::RunSolver) + stage_weight(Stage::RunChecker),
    {
        let mut t: u32 = 0;
        t = t + Stage::Build.weight();
        t = t + Stage::GenInput.weight();
        t = t + Stage::RunBruteforce.weight();
        t = t + Stage::RunSolver.weight();
        t = t + Stage::RunChecker.weight();
        t
    }
}

/// A run that a worker is busy with.
#[derive(Debug, Clone, Copy, PartialEq, Eq, Structural)]
pub struct RunInProgress {
    pub id: usize,
    pub stage: Stage,
}

/// The runs of a comparison: those not handed out yet are `next_id..all_cases`,
/// in order; the busy ones are kept by worker.
pub struct CompareRuns {
    all_cases: usize,
    next_id: usize,
    in_progress: BTreeMap<usize, RunInProgress>,
}

/// The mathematical value of `CompareRuns`.
pub struct RunsView {
    pub all_cases: nat,
    pub next_id: nat,
    pub in_progress: Map<usize, RunInProgress>,
}

impl View for CompareRuns {
    type V = RunsView;

    closed spec fn view(&self) -> RunsView {
        RunsView {
            all_cases: self.all_cases as nat,
            next_id: self.next_id as nat,
            in_progress: self.in_progress@,
        }
    }
}

/// What the event loop does after a worker finished a run.
#[derive(Debug, Clone, Copy, PartialEq, Eq, Structural)]
pub enum AfterDone {
    /// Send this run to the worker.
    Dispatch(usize),
    /// Other workers are still busy; wait for them.
    Wait,
    /// Every run is finished.
    Finish,
}

impl CompareRuns {
    /// The consistency of the state: runs are handed out in order and never
    /// more than exist, and no more runs are busy than were handed out.
    pub closed spec fn wf(&self) -> bool {
        &&& self.next_id <= self.all_cases
        &&& self.in_progress@.dom().finite()
        &&& self.in_progress@.len() <= self.next_id
        &&& forall|w: usize| #[trigger] self.in_progress@.contains_key(w) ==> self.in_progress@[w].id
            < self.next_id
    }

    /// Every run still to do, none handed out yet.
    pub fn new(all_cases: usize) -> (r: Self)
        ensures
            r.wf(),
            r@.all_cases == all_cases,
            r@.next_id == 0,
            r@.in_progress == Map::<usize, RunInProgress>::empty(),
    {
        CompareRuns { all_cases, next_id: 0, in_progress: BTreeMap::new() }
    }

    /// Hands the next run to `worker_id`, who starts it at its build stage;
    /// `None` when every run has been handed out.
    pub fn next(&mut self, worker_id: usize) -> (r: Option<usize>)
        requires
            old(self).wf(),
        ensures
            final(self).wf(),
            final(self)@.all_cases == old(self)@.all_cases,
            old(self)@.next_id < old(self)@.all_cases ==> r == Some(old(self)@.next_id as usize)
                && final(self)@.next_id == old(self)@.next_id + 1 && final(self)@.in_progress
                == old(self)@.in_progress.insert(
                worker_id,
                RunInProgress { id: old(self)@.next_id as usize, stage: Stage::Build },
            ),
            old(self)@.next_id >= old(self)@.all_cases ==> r is None && final(self)@ == old(self)@,
            (final(self)@, r) == next_spec(old(self)@, worker_id),
    {
        if self.next_id < self.all_cases {
            let id = self.next_id;
            self.next_id = self.next_id + 1;
            let ghost old_map = self.in_progress@;
            self.in_progress.insert(worker_id, RunInProgress { id, stage: Stage::Build });
            proof {
                if old_map.contains_key(worker_id) {
                    assert(self.in_progress@.dom() =~= old_map.dom());
                } else {
                    assert(self.in_progress@.dom() =~= old_map.dom().insert(worker_id));
                }
            }
            Some(id)
        } else {
            None
        }
    }

    /// Records that `worker_id`'s run reached `stage`.
    pub fn update_stage(&mut self, worker_id: usize, stage: Stage)
        requires
            old(self).wf(),
            old(self)@.in_progress.contains_key(worker_id),
        ensures
            final(self).wf(),
            final(self)@.all_cases == old(self)@.all_cases,
            final(self)@.next_id == old(self)@.next_id,
            final(self)@.in_progress == old(self)@.in_progress.insert(
                worker_id,
                RunInProgress { id: old(self)@.in_progress[worker_id].id, stage },
            ),
    {
        let id = match self.in_progress.get(&worker_id) {
            Some(r) => r.id,
            None => {
                proof {
                    assert(false);
                }
                0
            },
        };
        let ghost old_map = self.in_progress@;
        self.in_progress.insert(worker_id, RunInProgress { id, stage });
        assert(self.in_progress@.dom() =~= old_map.dom());
    }

    /// Takes `worker_id`'s run off the busy ones and returns it.
    pub fn finish(&mut self, worker_id: usize) -> (r: RunInProgress)
        requires
            old(self).wf(),
            old(self)@.in_progress.contains_key(worker_id),
        ensures
            final(self).wf(),
            r == old(self)@.in_progress[worker_id],
            final(self)@.all_cases == old(self)@.all_cases,
            final(self)@.next_id == old(self)@.next_id,
            final(self)@.in_progress == old(self)@.in_progress.remove(worker_id),
    {
        let ghost old_map = self.in_progress@;
        match self.in_progress.remove(&worker_id) {
            Some(r) => {
                assert(self.in_progress@.dom() =~= old_map.dom().remove(worker_id));
                r
            },
            None => {
                proof {
                    assert(false);
                }
                RunInProgress { id: 0, stage: Stage::Build }
            },
        }
    }

    /// A worker finished its run: it is given the next run when one is left;
    /// else the comparison is over once no worker is busy.
    pub fn done(&mut self, worker_id: usize) -> (r: AfterDone)
        requires
            old(self).wf(),
            old(self)@.in_progress.contains_key(worker_id),
        ensures
            final(self).wf(),
            final(self)@.all_cases == old(self)@.all_cases,
            old(self)@.next_id < old(self)@.all_cases ==> r == AfterDone::Dispatch(
                old(self)@.next_id as usize,
            ) && final(self)@.next_id == old(self)@.next_id + 1 && final(self)@.in_progress
                == old(self)@.in_progress.remove(worker_id).insert(
                worker_id,
                RunInProgress { id: old(self)@.next_id as usize, stage: Stage::Build },
            ),
            old(self)@.next_id >= old(self)@.all_cases ==> final(self)@.next_id == old(self)@.next_id
                && final(self)@.in_progress == old(self)@.in_progress.remove(worker_id) && (r
                == AfterDone::Finish <==> final(self)@.in_progress.len() == 0) && (r
                == AfterDone::Finish || r == AfterDone::Wait),
    {
        let _ = self.finish(worker_id);
        match self.next(worker_id) {
            Some(id) => AfterDone::Dispatch(id),
            None => {
                if self.in_progress.is_empty() {
                    AfterDone::Finish
                } else {
                    AfterDone::Wait
                }
            },
        }
    }

    /// How many runs are finished: handed out and no longer busy.
    pub fn done_count(&self) -> (r: usize)
        requires
            self.wf(),
        ensures
            r == self@.next_id - self@.in_progress.len(),
    {
        self.next_id - self.in_progress.len()
    }

    /// How many runs there are.
    pub fn all_cases(&self) -> (r: usize)
        ensures
            r == self@.all_cases,
    {
        self.all_cases
    }

    /// The busy runs, by worker.
    pub fn in_progress(&self) -> (r: &BTreeMap<usize, RunInProgress>)
        ensures
            r@ == self@.in_progress,
    {
        &self.in_progress
    }
}

/// What `CompareRuns::next` does: the next run not handed out yet goes to the
/// worker, at its build stage.
pub open spec fn next_spec(v: RunsView, worker_id: usize) -> (RunsView, Option<usize>) {
    if v.next_id < v.all_cases {
        (
            RunsView {
                all_cases: v.all_cases,
                next_id: v.next_id + 1,
                in_progress: v.in_progress.insert(
                    worker_id,
                    RunInProgress { id: v.next_id as usize, stage: Stage::Build },
                ),
            },
            Some(v.next_id as usize),
        )
    } else {
        (v, None)
    }
}

/// The runs that successive calls of `next` hand to the given workers.
pub open spec fn handed_out(v: RunsView, workers: Seq<usize>) -> Seq<Option<usize>>
    decreases workers.len(),
{
    if workers.len() == 0 {
        Seq::empty()
    } else {
        let (v1, r) = next_spec(v, workers[0]);
        seq![r] + handed_out(v1, workers.drop_first())
    }
}

/// Runs are handed out one after the other, each once, in order of their
/// ids, whichever workers ask; once all are out, nothing more is.
pub proof fn lemma_runs_in_order(v: RunsView, workers: Seq<usize>)
    ensures
        handed_out(v, workers).len() == workers.len(),
        forall|k: int|
            0 <= k < workers.len() ==> #[trigger] handed_out(v, workers)[k] == if v.next_id + k
                < v.all_cases {
                Some((v.next_id + k) as usize)
            } else {
                None::<usize>
            },
    decreases workers.len(),
{
    if workers.len() > 0 {
        let (v1, r) = next_spec(v, workers[0]);
        lemma_runs_in_order(v1, workers.drop_first());
        assert forall|k: int| 0 <= k < workers.len() implies #[trigger] handed_out(v, workers)[k]
            == if v.next_id + k < v.all_cases {
            Some((v.next_id + k) as usize)
        } else {
            None::<usize>
        } by {
            if k > 0 {
                assert(handed_out(v, workers)[k] == handed_out(v1, workers.drop_first())[k - 1]);
            }
        }
    }
}

} // verus!
