use vstd::prelude::*;

use crate::lexical::{sort_distinct, strictly_sorted};
use crate::plan::{generate_output_path, lemma_output_path_injective, output_path};

verus! {

/// Where one job of a batch stands.
pub enum JobOutcome {
    /// Not finished yet.
    Pending,
    /// Its output was written.
    Done,
    /// It failed, for the reason given.
    Failed(String),
}

/// Jobs among `s` that finished with an output.
pub open spec fn count_done(s: Seq<JobOutcome>) -> nat
    decreases s.len(),
{
    if s.len() == 0 {
        0
    } else {
        count_done(s.drop_last()) + if s.last() is Done {
            1nat
        } else {
            0nat
        }
    }
}

/// Jobs among `s` that failed.
pub open spec fn count_failed(s: Seq<JobOutcome>) -> nat
    decreases s.len(),
{
    if s.len() == 0 {
        0
    } else {
        count_failed(s.drop_last()) + if s.last() is Failed {
            1nat
        } else {
            0nat
        }
    }
}

proof fn lemma_counts_bounded(s: Seq<JobOutcome>)
    ensures
        count_done(s) + count_failed(s) <= s.len(),
    decreases s.len(),
{
    if s.len() > 0 {
        lemma_counts_bounded(s.drop_last());
    }
}

proof fn lemma_counts_update(s: Seq<JobOutcome>, i: int, o: JobOutcome)
    requires
        0 <= i < s.len(),
        s[i] is Pending,
    ensures
        count_done(s.update(i, o)) == count_done(s) + if o is Done {
            1nat
        } else {
            0nat
        },
        count_failed(s.update(i, o)) == count_failed(s) + if o is Failed {
            1nat
        } else {
            0nat
        },
    decreases s.len(),
{
    if i == s.len() - 1 {
        assert(s.update(i, o).drop_last() =~= s.drop_last());
    } else {
        assert(s.update(i, o).drop_last() =~= s.drop_last().update(i, o));
        lemma_counts_update(s.drop_last(), i, o);
    }
}

proof fn lemma_prefix_step(s: Seq<JobOutcome>, i: int)
    requires
        0 <= i < s.len(),
    ensures
        s.subrange(0, i + 1).drop_last() == s.subrange(0, i),
        s.subrange(0, i + 1).last() == s[i],
{
    assert(s.subrange(0, i + 1).drop_last() =~= s.subrange(0, i));
}

/// Shared record of a batch: one outcome per job, and how many have finished
/// each way. Job `i` writes `output_path(output_dir, i)`.
pub struct BatchState {
    pub output_dir: String,
    pub outcomes: Vec<JobOutcome>,
    pub processed: usize,
    pub failed: usize,
}

impl BatchState {
    /// The counters agree with the outcomes.
    pub open spec fn wf(&self) -> bool {
        &&& self.processed == count_done(self.outcomes@)
        &&& self.failed == count_failed(self.outcomes@)
    }

    /// Output paths of the jobs that finished with an output.
    pub open spec fn completed_paths(&self) -> Set<Seq<char>> {
        Set::new(
            |p: Seq<char>|
                exists|i: int|
                    0 <= i < self.outcomes.len() && self.outcomes[i] is Done && p == output_path(
                        self.output_dir@,
                        i as nat,
                    ),
        )
    }

    /// A batch of `total_jobs` jobs, none finished, writing into `output_dir`.
    pub fn new(output_dir: String, total_jobs: usize) -> (r: BatchState)
        ensures
            r.wf(),
            r.output_dir == output_dir,
            r.outcomes.len() == total_jobs,
            forall|i: int| 0 <= i < total_jobs ==> r.outcomes[i] is Pending,
            r.processed == 0,
            r.failed == 0,
    {
        let mut outcomes: Vec<JobOutcome> = Vec::new();
        let mut i: usize = 0;
        while i < total_jobs
            invariant
                i <= total_jobs,
                outcomes.len() == i,
                forall|k: int| 0 <= k < i ==> outcomes[k] is Pending,
                count_done(outcomes@) == 0,
                count_failed(outcomes@) == 0,
            decreases total_jobs - i,
        {
            let ghost before = outcomes@;
            outcomes.push(JobOutcome::Pending);
            assert(outcomes@.drop_last() =~= before);
            i += 1;
        }
        BatchState { output_dir, outcomes, processed: 0, failed: 0 }
    }

    /// Number of jobs in the batch.
    pub fn total_jobs(&self) -> (r: usize)
        ensures
            r == self.outcomes.len(),
    {
        self.outcomes.len()
    }

    /// Whether job `index` exists and has not finished.
    pub fn is_pending(&self, index: usize) -> (r: bool)
        ensures
            r == (index < self.outcomes.len() && self.outcomes[index as int] is Pending),
    {
        index < self.outcomes.len() && matches!(self.outcomes[index], JobOutcome::Pending)
    }

    /// Records that job `index` wrote its output, and gives the share of the
    /// batch's jobs that have now done so, in whole percent. A job that does not
    /// exist or has already finished leaves the record as it was.
    pub fn record_success(&mut self, index: usize) -> (r: Option<u64>)
        requires
            old(self).wf(),
        ensures
            final(self).wf(),
            if index < old(self).outcomes.len() && old(self).outcomes[index as int] is Pending {
                &&& final(self).outcomes@ == old(self).outcomes@.update(
                    index as int,
                    JobOutcome::Done,
                )
                &&& final(self).output_dir == old(self).output_dir
                &&& final(self).processed == old(self).processed + 1
                &&& final(self).failed == old(self).failed
                &&& r == Some((final(self).processed * 100 / final(self).outcomes.len() as int) as u64)
            } else {
                *final(self) == *old(self) && r.is_none()
            },
    {
        if !self.is_pending(index) {
            return None;
        }
        proof {
            lemma_counts_update(self.outcomes@, index as int, JobOutcome::Done);
            lemma_counts_bounded(self.outcomes@.update(index as int, JobOutcome::Done));
        }
        self.outcomes[index] = JobOutcome::Done;
        self.processed = self.processed + 1;
        let total = self.outcomes.len() as u128;
        let done = self.processed as u128;
        assert(done * 100 / (total as int) <= 100) by (nonlinear_arith)
            requires
                done <= total,
                total > 0,
        ;
        Some((done * 100 / total) as u64)
    }

    /// Records that job `index` failed with `error`. Returns whether it was
    /// recorded: a job that does not exist or has already finished is left as it was.
    pub fn record_failure(&mut self, index: usize, error: String) -> (r: bool)
        requires
            old(self).wf(),
        ensures
            final(self).wf(),
            r == (index < old(self).outcomes.len() && old(self).outcomes[index as int] is Pending),
            r ==> final(self).outcomes@ == old(self).outcomes@.update(
                index as int,
                JobOutcome::Failed(error),
            ) && final(self).output_dir == old(self).output_dir && final(self).processed == old(
                self,
            ).processed && final(self).failed == old(self).failed + 1,
            !r ==> *final(self) == *old(self),
    {
        if !self.is_pending(index) {
            return false;
        }
        proof {
            lemma_counts_update(self.outcomes@, index as int, JobOutcome::Failed(error));
            lemma_counts_bounded(self.outcomes@.update(index as int, JobOutcome::Failed(error)));
        }
        self.outcomes[index] = JobOutcome::Failed(error);
        self.failed = self.failed + 1;
        true
    }

    /// The output paths of the jobs that succeeded, in lexicographic order, each once.
    pub fn completed_outputs(&self) -> (r: Vec<String>)
        requires
            self.wf(),
        ensures
            strictly_sorted(r.deep_view()),
            r.deep_view().to_set() == self.completed_paths(),
            r.len() == self.processed,
    {
        let mut found: Vec<String> = Vec::new();
        let mut i: usize = 0;
        while i < self.outcomes.len()
            invariant
                i <= self.outcomes.len(),
                found.deep_view() == done_paths(self.outcomes@.subrange(0, i as int), self.output_dir@),
            decreases self.outcomes.len() - i,
        {
            proof {
                lemma_prefix_step(self.outcomes@, i as int);
            }
            if matches!(self.outcomes[i], JobOutcome::Done) {
                let p = generate_output_path(self.output_dir.as_str(), i);
                let ghost before = found.deep_view();
                found.push(p);
                assert(found.deep_view() =~= before.push(p@));
            }
            i += 1;
        }
        assert(self.outcomes@.subrange(0, i as int) =~= self.outcomes@);
        proof {
            lemma_done_paths(self.outcomes@, self.output_dir@);
            assert forall|a: int, b: int| 0 <= a < b < found.len() implies found[a]@ != found[b]@ by {
                assert(found.deep_view()[a] == found[a]@);
                assert(found.deep_view()[b] == found[b]@);
            }
            assert forall|p: Seq<char>| self.completed_paths().contains(p) implies #[trigger] found.deep_view().to_set().contains(p) by {
                let k = choose|k: int|
                    0 <= k < self.outcomes.len() && self.outcomes[k] is Done && p == output_path(
                        self.output_dir@,
                        k as nat,
                    );
                assert(found.deep_view().contains(p));
            }
            assert(found.deep_view().to_set() =~= self.completed_paths());
        }
        sort_distinct(found)
    }
}

/// The failed jobs among `s`, in index order, each as its output path and the reason.
pub open spec fn failed_entries(s: Seq<JobOutcome>, dir: Seq<char>) -> Seq<(Seq<char>, Seq<char>)>
    decreases s.len(),
{
    if s.len() == 0 {
        seq![]
    } else {
        let r = failed_entries(s.drop_last(), dir);
        match s.last() {
            JobOutcome::Failed(e) => r.push((output_path(dir, (s.len() - 1) as nat), e@)),
            _ => r,
        }
    }
}

proof fn lemma_failed_entries_len(s: Seq<JobOutcome>, dir: Seq<char>)
    ensures
        failed_entries(s, dir).len() == count_failed(s),
    decreases s.len(),
{
    if s.len() > 0 {
        lemma_failed_entries_len(s.drop_last(), dir);
    }
}

impl BatchState {
    /// The jobs that failed, in increasing index order, each once, as its output
    /// path and the reason.
    pub fn failures(&self) -> (r: Vec<(String, String)>)
        requires
            self.wf(),
        ensures
            r@.map_values(|x: (String, String)| (x.0@, x.1@)) == failed_entries(
                self.outcomes@,
                self.output_dir@,
            ),
            r.len() == self.failed,
    {
        let mut out: Vec<(String, String)> = Vec::new();
        let mut i: usize = 0;
        while i < self.outcomes.len()
            invariant
                i <= self.outcomes.len(),
                out@.map_values(|x: (String, String)| (x.0@, x.1@)) == failed_entries(
                    self.outcomes@.subrange(0, i as int),
                    self.output_dir@,
                ),
            decreases self.outcomes.len() - i,
        {
            proof {
                lemma_prefix_step(self.outcomes@, i as int);
            }
            match &self.outcomes[i] {
                JobOutcome::Failed(e) => {
                    let p = generate_output_path(self.output_dir.as_str(), i);
                    let ghost before = out@;
                    out.push((p, e.clone()));
                    assert(out@.map_values(|x: (String, String)| (x.0@, x.1@)) =~= before.map_values(
                        |x: (String, String)| (x.0@, x.1@),
                    ).push((p@, e@)));
                },
                _ => {},
            }
            i += 1;
        }
        assert(self.outcomes@.subrange(0, i as int) =~= self.outcomes@);
        proof {
            lemma_failed_entries_len(self.outcomes@, self.output_dir@);
        }
        out
    }
}

/// When every job of a batch succeeds, the outputs it reports are exactly the
/// paths of all its jobs, one per job.
pub proof fn lemma_all_succeeded_outputs(state: &BatchState)
    requires
        state.wf(),
        forall|i: int| 0 <= i < state.outcomes.len() ==> #[trigger] state.outcomes[i] is Done,
    ensures
        state.completed_paths() == Set::new(
            |p: Seq<char>|
                exists|i: int|
                    0 <= i < state.outcomes.len() && p == #[trigger] output_path(
                        state.output_dir@,
                        i as nat,
                    ),
        ),
        state.processed == state.outcomes.len(),
        state.failed == 0,
{
    lemma_counts_when_finished(state.outcomes@);
    lemma_none_failed(state.outcomes@);
    assert forall|p: Seq<char>| #[trigger] state.completed_paths().contains(p) <==> exists|i: int|
        0 <= i < state.outcomes.len() && p == #[trigger] output_path(state.output_dir@, i as nat) by {
        if exists|i: int|
            0 <= i < state.outcomes.len() && p == #[trigger] output_path(state.output_dir@, i as nat) {
            let i = choose|i: int|
                0 <= i < state.outcomes.len() && p == #[trigger] output_path(state.output_dir@, i as nat);
            assert(state.outcomes[i] is Done);
        }
    }
    assert(state.completed_paths() =~= Set::new(
        |p: Seq<char>|
            exists|i: int|
                0 <= i < state.outcomes.len() && p == #[trigger] output_path(state.output_dir@, i as nat),
    ));
}

proof fn lemma_none_failed(s: Seq<JobOutcome>)
    requires
        forall|i: int| 0 <= i < s.len() ==> #[trigger] s[i] is Done,
    ensures
        count_failed(s) == 0,
    decreases s.len(),
{
    if s.len() > 0 {
        assert(s[s.len() - 1] is Done);
        assert forall|i: int| 0 <= i < s.len() - 1 implies #[trigger] s.drop_last()[i] is Done by {
            assert(s.drop_last()[i] == s[i]);
        }
        lemma_none_failed(s.drop_last());
    }
}

/// A job that failed is never among the reported outputs, whatever became of
/// the other jobs.
pub proof fn lemma_failed_job_not_reported(state: &BatchState, i: int)
    requires
        0 <= i < state.outcomes.len(),
        state.outcomes[i] is Failed,
    ensures
        !state.completed_paths().contains(output_path(state.output_dir@, i as nat)),
{
    if state.completed_paths().contains(output_path(state.output_dir@, i as nat)) {
        let k = choose|k: int|
            0 <= k < state.outcomes.len() && state.outcomes[k] is Done && output_path(
                state.output_dir@,
                i as nat,
            ) == output_path(state.output_dir@, k as nat);
        lemma_output_path_injective(state.output_dir@, i as nat, k as nat);
    }
}

/// Output paths of the finished jobs among `s`, in index order.
pub open spec fn done_paths(s: Seq<JobOutcome>, dir: Seq<char>) -> Seq<Seq<char>>
    decreases s.len(),
{
    if s.len() == 0 {
        seq![]
    } else {
        let r = done_paths(s.drop_last(), dir);
        if s.last() is Done {
            r.push(output_path(dir, (s.len() - 1) as nat))
        } else {
            r
        }
    }
}

proof fn lemma_done_paths(s: Seq<JobOutcome>, dir: Seq<char>)
    ensures
        done_paths(s, dir).len() == count_done(s),
        forall|p: Seq<char>|
            done_paths(s, dir).contains(p) <==> exists|k: int|
                0 <= k < s.len() && s[k] is Done && p == output_path(dir, k as nat),
        forall|a: int, b: int|
            0 <= a < b < done_paths(s, dir).len() ==> done_paths(s, dir)[a] != done_paths(
                s,
                dir,
            )[b],
    decreases s.len(),
{
    if s.len() > 0 {
        let t = s.drop_last();
        lemma_done_paths(t, dir);
        let r = done_paths(t, dir);
        let last = (s.len() - 1) as nat;
        assert(done_paths(s, dir) == (if s.last() is Done {
            r.push(output_path(dir, last))
        } else {
            r
        }));
        assert forall|p: Seq<char>|
            done_paths(s, dir).contains(p) <==> exists|k: int|
                0 <= k < s.len() && s[k] is Done && p == output_path(dir, k as nat) by {
            if done_paths(s, dir).contains(p) {
                if r.contains(p) {
                    let k = choose|k: int|
                        0 <= k < t.len() && t[k] is Done && p == output_path(dir, k as nat);
                    assert(s[k] == t[k]);
                } else {
                    let q = choose|q: int| 0 <= q < done_paths(s, dir).len() && done_paths(s, dir)[q] == p;
                    if q < r.len() {
                        assert(r[q] == p);
                    }
                    assert(s[last as int] is Done && p == output_path(dir, last));
                }
            }
            if exists|k: int| 0 <= k < s.len() && s[k] is Done && p == output_path(dir, k as nat) {
                let k = choose|k: int|
                    0 <= k < s.len() && s[k] is Done && p == output_path(dir, k as nat);
                if k < t.len() {
                    assert(t[k] == s[k]);
                    assert(0 <= k < t.len() && t[k] is Done && p == output_path(dir, k as nat));
                    assert(r.contains(p));
                    let q = choose|q: int| 0 <= q < r.len() && r[q] == p;
                    if s.last() is Done {
                        assert(r.push(output_path(dir, last))[q] == p);
                    }
                    assert(done_paths(s, dir)[q] == p);
                } else {
                    assert(s.last() is Done);
                    assert(r.push(output_path(dir, last))[r.len() as int] == p);
                    assert(done_paths(s, dir)[r.len() as int] == p);
                }
            }
        }
        if s.last() is Done {
            assert forall|a: int, b: int|
                0 <= a < b < done_paths(s, dir).len() implies done_paths(s, dir)[a] != done_paths(
                s,
                dir,
            )[b] by {
                if b == r.len() {
                    assert(r.contains(r[a]));
                    let k = choose|k: int|
                        0 <= k < t.len() && t[k] is Done && r[a] == output_path(dir, k as nat);
                    if r[a] == output_path(dir, last) {
                        lemma_output_path_injective(dir, k as nat, last);
                    }
                } else {
                    assert(done_paths(s, dir)[a] == r[a]);
                    assert(done_paths(s, dir)[b] == r[b]);
                }
            }
        }
    }
}

proof fn lemma_counts_when_finished(s: Seq<JobOutcome>)
    requires
        forall|i: int| 0 <= i < s.len() ==> !(#[trigger] s[i] is Pending),
    ensures
        count_done(s) + count_failed(s) == s.len(),
    decreases s.len(),
{
    if s.len() > 0 {
        assert(!(s[s.len() - 1] is Pending));
        assert forall|i: int| 0 <= i < s.len() - 1 implies !(#[trigger] s.drop_last()[i] is Pending) by {
            assert(s.drop_last()[i] == s[i]);
        }
        lemma_counts_when_finished(s.drop_last());
    }
}

/// Once every job of a batch has finished, the outputs it reports are in
/// lexicographic order without repeats, and there are as many as there were
/// jobs that did not fail.
pub proof fn lemma_finished_batch_outputs(state: &BatchState, r: Seq<Seq<char>>)
    requires
        state.wf(),
        forall|i: int| 0 <= i < state.outcomes.len() ==> !(#[trigger] state.outcomes[i] is Pending),
        strictly_sorted(r),
        r.to_set() == state.completed_paths(),
        r.len() == state.processed,
    ensures
        forall|a: int, b: int| 0 <= a < b < r.len() ==> r[a] != r[b],
        r.len() == state.outcomes.len() - state.failed,
{
    lemma_counts_when_finished(state.outcomes@);
    assert forall|a: int, b: int| 0 <= a < b < r.len() implies r[a] != r[b] by {
        crate::lexical::lemma_lex_asym(r[a], r[b]);
    }
}

} // verus!
