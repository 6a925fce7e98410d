use vstd::prelude::*;

verus! {

/// A command line that runs in the background: the processes it started
/// that have not been seen to finish, and the line itself.
pub struct Job {
    pids: Vec<i32>,
    line: Vec<char>,
}

/// The background command lines that are still alive, in the order they were
/// started.
pub struct JobTable {
    jobs: Vec<Job>,
}

/// A job as mathematics: its live processes and its line.
pub type JobView = (Seq<i32>, Seq<char>);

impl View for Job {
    type V = JobView;

    closed spec fn view(&self) -> JobView {
        (self.pids@, self.line@)
    }
}

/// The views of the jobs.
pub open spec fn jobs_view(js: Seq<Job>) -> Seq<JobView> {
    js.map_values(|j: Job| j@)
}

impl View for JobTable {
    type V = Seq<JobView>;

    closed spec fn view(&self) -> Seq<JobView> {
        jobs_view(self.jobs@)
    }
}

/// Every job has a process that has not been seen to finish.
pub open spec fn jobs_wf(js: Seq<JobView>) -> bool {
    forall|i: int| 0 <= i < js.len() ==> (#[trigger] js[i]).0.len() > 0
}

/// Whether a process is other than `pid`.
pub open spec fn other_than(pid: i32) -> spec_fn(i32) -> bool {
    |p: i32| p != pid
}

/// A job without process `pid`.
pub open spec fn leave_job(pid: i32) -> spec_fn(JobView) -> JobView {
    |j: JobView| (j.0.filter(other_than(pid)), j.1)
}

/// Whether a job has a process left.
pub open spec fn is_live() -> spec_fn(JobView) -> bool {
    |j: JobView| j.0.len() > 0
}

/// The jobs once process `pid` has finished: it leaves the job it belonged
/// to, and a job none of whose processes is left is dead and goes.
pub open spec fn after_finish(js: Seq<JobView>, pid: i32) -> Seq<JobView> {
    js.map_values(leave_job(pid)).filter(is_live())
}

/// All the processes of the jobs, job after job.
pub open spec fn all_pids(js: Seq<JobView>) -> Seq<i32>
    decreases js.len(),
{
    if js.len() == 0 {
        Seq::empty()
    } else {
        all_pids(js.drop_last()) + js.last().0
    }
}

/// The lines of the jobs, in the order the jobs were started.
pub open spec fn job_lines(js: Seq<JobView>) -> Seq<Seq<char>> {
    js.map_values(|j: JobView| j.1)
}

/// The processes of `pids` other than `pid`, in order.
fn without_pid(pids: &Vec<i32>, pid: i32) -> (r: Vec<i32>)
    ensures
        r@ == pids@.filter(other_than(pid)),
{
    let mut r: Vec<i32> = Vec::new();
    let mut i: usize = 0;
    while i < pids.len()
        invariant
            i <= pids.len(),
            r@ == pids@.take(i as int).filter(other_than(pid)),
        decreases pids.len() - i,
    {
        proof {
            assert(pids@.take(i as int + 1) =~= pids@.take(i as int).push(pids@[i as int]));
            pids@.take(i as int).lemma_filter_push(pids@[i as int], other_than(pid));
        }
        if pids[i] != pid {
            r.push(pids[i]);
        }
        i = i + 1;
    }
    proof {
        assert(pids@.take(pids.len() as int) =~= pids@);
    }
    r
}

/// A copy of a sequence of characters.
fn copy_chars(v: &Vec<char>) -> (r: Vec<char>)
    ensures
        r@ == v@,
{
    let r = v.clone();
    assert(r@ =~= v@);
    r
}

impl JobTable {
    /// The table is consistent.
    pub open spec fn wf(&self) -> bool {
        jobs_wf(self@)
    }

    /// A table without jobs.
    pub fn new() -> (t: JobTable)
        ensures
            t@ == Seq::<JobView>::empty(),
            t.wf(),
    {
        let t = JobTable { jobs: Vec::new() };
        assert(t@ =~= Seq::<JobView>::empty());
        t
    }

    /// Records the background command line `line`, whose processes are
    /// `pids`.  A line that started no process is dead at once and is not
    /// recorded.
    pub fn add(&mut self, pids: Vec<i32>, line: Vec<char>)
        requires
            old(self).wf(),
        ensures
            final(self).wf(),
            final(self)@ == if pids@.len() > 0 {
                old(self)@.push((pids@, line@))
            } else {
                old(self)@
            },
    {
        if pids.len() > 0 {
            let ghost before = self.jobs@;
            let j = Job { pids, line };
            self.jobs.push(j);
            proof {
                assert(jobs_view(self.jobs@) =~= jobs_view(before).push(j@));
            }
        }
    }

    /// Every process of every job, for the caller to see which have finished.
    pub fn pids(&self) -> (r: Vec<i32>)
        ensures
            r@ == all_pids(self@),
    {
        let mut r: Vec<i32> = Vec::new();
        let mut i: usize = 0;
        while i < self.jobs.len()
            invariant
                i <= self.jobs.len(),
                r@ == all_pids(jobs_view(self.jobs@).take(i as int)),
            decreases self.jobs.len() - i,
        {
            let ghost jv = jobs_view(self.jobs@);
            assert(jv.take(i as int + 1).drop_last() =~= jv.take(i as int));
            let ps = &self.jobs[i].pids;
            let ghost before = r@;
            let mut k: usize = 0;
            while k < ps.len()
                invariant
                    k <= ps.len(),
                    r@ == before + ps@.take(k as int),
                decreases ps.len() - k,
            {
                r.push(ps[k]);
                k = k + 1;
                proof {
                    assert(r@ =~= before + ps@.take(k as int));
                }
            }
            proof {
                assert(ps@.take(ps.len() as int) =~= ps@);
                assert(jv.take(i as int + 1).last() == self.jobs@[i as int]@);
            }
            i = i + 1;
        }
        proof {
            assert(jobs_view(self.jobs@).take(self.jobs.len() as int) =~= self@);
        }
        r
    }

    /// Notes that process `pid` has finished: it leaves its job, and a job
    /// with no process left is dead and leaves the table.
    pub fn finish(&mut self, pid: i32)
        requires
            old(self).wf(),
        ensures
            final(self).wf(),
            final(self)@ == after_finish(old(self)@, pid),
    {
        let ghost old_view = self@;
        let ghost f = leave_job(pid);
        let ghost keep = is_live();
        let mut kept: Vec<Job> = Vec::new();
        let mut i: usize = 0;
        while i < self.jobs.len()
            invariant
                i <= self.jobs.len(),
                old_view == jobs_view(self.jobs@),
                f == leave_job(pid),
                keep == is_live(),
                jobs_view(kept@) == old_view.take(i as int).map_values(f).filter(keep),
            decreases self.jobs.len() - i,
        {
            let ghost prefix = old_view.take(i as int);
            let ghost x = old_view[i as int];
            proof {
                assert(old_view.take(i as int + 1) =~= prefix.push(x));
                assert(prefix.push(x).map_values(f) =~= prefix.map_values(f).push(f(x)));
                prefix.map_values(f).lemma_filter_push(f(x), keep);
            }
            let ps = without_pid(&self.jobs[i].pids, pid);
            if ps.len() > 0 {
                let line = copy_chars(&self.jobs[i].line);
                let j = Job { pids: ps, line };
                let ghost before = kept@;
                kept.push(j);
                proof {
                    assert(jobs_view(kept@) =~= jobs_view(before).push(j@));
                }
            }
            i = i + 1;
        }
        proof {
            assert(old_view.take(self.jobs.len() as int) =~= old_view);
        }
        self.jobs = kept;
        proof {
            let r = self@;
            assert forall|k: int| 0 <= k < r.len() implies (#[trigger] r[k]).0.len() > 0 by {
                old_view.map_values(f).lemma_filter_pred(keep, k);
            }
        }
    }

    /// The lines of the live jobs, in the order they were started.
    pub fn lines(&self) -> (r: Vec<Vec<char>>)
        ensures
            r@.map_values(|l: Vec<char>| l@) == job_lines(self@),
    {
        let mut r: Vec<Vec<char>> = Vec::new();
        let mut i: usize = 0;
        while i < self.jobs.len()
            invariant
                i <= self.jobs.len(),
                r@.map_values(|l: Vec<char>| l@) == job_lines(jobs_view(self.jobs@)).take(
                    i as int,
                ),
            decreases self.jobs.len() - i,
        {
            let l = copy_chars(&self.jobs[i].line);
            let ghost before = r@;
            r.push(l);
            proof {
                assert(r@.map_values(|l: Vec<char>| l@) =~= before.map_values(|l: Vec<char>| l@).push(
                    l@,
                ));
                assert(l@ == self.jobs@[i as int]@.1);
                assert(r@.map_values(|l: Vec<char>| l@) =~= job_lines(jobs_view(self.jobs@)).take(
                    i as int + 1,
                ));
            }
            i = i + 1;
        }
        proof {
            assert(job_lines(jobs_view(self.jobs@)).take(self.jobs.len() as int) =~= job_lines(
                self@,
            ));
        }
        r
    }
}


/// A process that belongs to no job does not change the table when it
/// finishes, and a table that records no job stays empty.
pub proof fn lemma_finish_unknown_pid(js: Seq<JobView>, pid: i32)
    requires
        jobs_wf(js),
        forall|i: int, k: int| 0 <= i < js.len() && 0 <= k < js[i].0.len() ==> js[i].0[k] != pid,
    ensures
        after_finish(js, pid) == js,
    decreases js.len(),
{
    if js.len() > 0 {
        let init = js.drop_last();
        let x = js.last();
        lemma_finish_unknown_pid(init, pid);
        assert(js =~= init.push(x));
        assert(js.map_values(leave_job(pid)) =~= init.map_values(leave_job(pid)).push(
            leave_job(pid)(x),
        ));
        lemma_filter_keeps_all(x.0, pid);
        assert(leave_job(pid)(x) == x);
        init.map_values(leave_job(pid)).lemma_filter_push(x, is_live());
    } else {
        assert(js.map_values(leave_job(pid)) =~= js);
        reveal(Seq::filter);
    }
}

/// Filtering out a process that is not there leaves the processes as they
/// were.
proof fn lemma_filter_keeps_all(ps: Seq<i32>, pid: i32)
    requires
        forall|k: int| 0 <= k < ps.len() ==> ps[k] != pid,
    ensures
        ps.filter(other_than(pid)) == ps,
    decreases ps.len(),
{
    reveal(Seq::filter);
    if ps.len() > 0 {
        lemma_filter_keeps_all(ps.drop_last(), pid);
        assert(ps.drop_last().push(ps.last()) =~= ps);
    } else {
        assert(ps.filter(other_than(pid)) =~= ps);
    }
}

/// When its last live process finishes, a job leaves the listing; a job
/// with another live process stays, with that process.
pub proof fn lemma_finish_one_job(js: Seq<JobView>, pid: i32)
    requires
        jobs_wf(js),
        js.len() == 1,
    ensures
        js[0].0 == seq![pid] ==> after_finish(js, pid).len() == 0,
        js[0].0.filter(other_than(pid)).len() > 0 ==> after_finish(js, pid) == seq![
            (js[0].0.filter(other_than(pid)), js[0].1),
        ],
{
    let x = js[0];
    assert(js =~= Seq::<JobView>::empty().push(x));
    assert(js.map_values(leave_job(pid)) =~= Seq::<JobView>::empty().push(leave_job(pid)(x)));
    Seq::<JobView>::empty().lemma_filter_push(leave_job(pid)(x), is_live());
    reveal(Seq::filter);
    assert(Seq::<JobView>::empty().filter(is_live()) =~= Seq::<JobView>::empty());
    if x.0 == seq![pid] {
        assert(x.0 =~= Seq::<i32>::empty().push(pid));
        Seq::<i32>::empty().lemma_filter_push(pid, other_than(pid));
        assert(Seq::<i32>::empty().filter(other_than(pid)) =~= Seq::<i32>::empty());
    }
}

} // verus!
