//! The job-centre queues: prioritised waiting jobs and the jobs
//! currently worked on.
//!
//! Every job gets a fresh id when it is put into a named queue. A `get`
//! takes some highest-priority job among the queues it watches and
//! moves it in flight; an abort puts it back; a delete removes it for
//! good, waiting or in flight. When a client disconnects, everything it
//! had in flight returns to the queues.

use vstd::prelude::*;
use vstd::seq_lib::*;
use crate::codec::bytes_eq;

verus! {

/// The outcome tag of a response to a client.
#[derive(PartialEq, Eq, Debug, Clone)]
pub enum ResponseStatus {
    Okay,
    Error,
    NoJob,
}

/// One job: its id, the queue it belongs to, its body (carried as the
/// raw text it arrived in), and its priority.
#[derive(PartialEq, Eq, Debug)]
pub struct Job {
    pub id: usize,
    pub queue: Vec<u8>,
    pub job: Vec<u8>,
    pub pri: usize,
}

/// The waiting jobs of every queue, flattened, with the id counter.
pub struct JobQueues {
    pub jobs: Vec<Job>,
    pub next_id: usize,
}

/// Index of the first job with this id, or `js.len()`.
pub open spec fn find_job(js: Seq<Job>, id: usize) -> int
    decreases js.len(),
{
    if js.len() == 0 {
        0
    } else if js[0].id == id {
        0
    } else {
        1 + find_job(js.skip(1), id)
    }
}

/// What [`find_job`] points at, for callers reading the contracts
/// that cite it.
pub proof fn lemma_find_job(js: Seq<Job>, id: usize)
    ensures
        0 <= find_job(js, id) <= js.len(),
        find_job(js, id) < js.len() ==> js[find_job(js, id)].id == id,
        forall|i: int| 0 <= i < find_job(js, id) ==> (#[trigger] js[i]).id != id,
    decreases js.len(),
{
    if js.len() > 0 && js[0].id != id {
        lemma_find_job(js.skip(1), id);
        let f = find_job(js, id);
        assert forall|i: int| 0 <= i < f implies (#[trigger] js[i]).id != id by {
            if i >= 1 {
                assert(js.skip(1)[i - 1] == js[i]);
            }
        }
        if f < js.len() {
            assert(js[f] == js.skip(1)[find_job(js.skip(1), id)]);
        }
    }
}

proof fn lemma_find_job_is(js: Seq<Job>, id: usize, k: int)
    requires
        0 <= k <= js.len(),
        k < js.len() ==> js[k].id == id,
        forall|i: int| 0 <= i < k ==> (#[trigger] js[i]).id != id,
    ensures
        find_job(js, id) == k,
    decreases js.len(),
{
    if js.len() == 0 {
    } else if js[0].id == id {
        assert(k == 0);
    } else {
        assert(k >= 1);
        assert(forall|i: int| 0 <= i < k - 1 ==> #[trigger] js.skip(1)[i] == js[i + 1]);
        if k < js.len() {
            assert(js.skip(1)[k - 1] == js[k]);
        }
        lemma_find_job_is(js.skip(1), id, k - 1);
    }
}

/// Whether a job's queue is one of the watched queue names.
pub open spec fn watches(queues: Seq<Vec<u8>>, name: Seq<u8>) -> bool {
    exists|q: int| 0 <= q < queues.len() && (#[trigger] queues[q])@ == name
}

impl JobQueues {
    /// Ids are issued in order and never repeat.
    pub open spec fn wf(self) -> bool {
        &&& forall|i: int|
            0 <= i < self.jobs@.len() ==> (#[trigger] self.jobs@[i]).id < self.next_id
        &&& forall|i: int, j: int|
            0 <= i < j < self.jobs@.len() ==> (#[trigger] self.jobs@[i]).id != (
            #[trigger] self.jobs@[j]).id
    }

    pub fn new() -> (r: JobQueues)
        ensures
            r.jobs@.len() == 0,
            r.next_id == 0,
            r.wf(),
    {
        JobQueues { jobs: Vec::new(), next_id: 0 }
    }

    /// Queues a job under a fresh id and hands the id back.
    pub fn add(&mut self, queue: Vec<u8>, job: Vec<u8>, pri: usize) -> (id: usize)
        requires
            old(self).wf(),
            old(self).next_id < usize::MAX,
        ensures
            final(self).wf(),
            id == old(self).next_id,
            final(self).next_id == old(self).next_id + 1,
            final(self).jobs@.len() == old(self).jobs@.len() + 1,
            final(self).jobs@.take(old(self).jobs@.len() as int) == old(self).jobs@,
            final(self).jobs@.last().id == id,
            final(self).jobs@.last().queue@ == queue@,
            final(self).jobs@.last().job@ == job@,
            final(self).jobs@.last().pri == pri,
    {
        let id = self.next_id;
        self.next_id = self.next_id + 1;
        self.jobs.push(Job { id, queue, job, pri });
        proof {
            assert(self.jobs@.take(old(self).jobs@.len() as int) =~= old(self).jobs@);
        }
        id
    }

    /// Puts an aborted job back into its queue.
    fn restore(&mut self, job: Job)
        requires
            old(self).wf(),
            job.id < old(self).next_id,
            forall|i: int| 0 <= i < old(self).jobs@.len() ==> (#[trigger] old(
                self,
            ).jobs@[i]).id != job.id,
        ensures
            final(self).wf(),
            final(self).next_id == old(self).next_id,
            final(self).jobs@ == old(self).jobs@.push(job),
    {
        self.jobs.push(job);
    }

    /// Takes some waiting job of maximal priority among the watched
    /// queues, or reports that none waits.
    pub fn next_best(&mut self, candidates: &Vec<Vec<u8>>) -> (r: Option<Job>)
        requires
            old(self).wf(),
        ensures
            final(self).wf(),
            final(self).next_id == old(self).next_id,
            match r {
                Some(j) => {
                    &&& exists|k: int|
                        0 <= k < old(self).jobs@.len() && old(self).jobs@[k] == j
                            && final(self).jobs@ == old(self).jobs@.remove(k)
                    &&& watches(candidates@, j.queue@)
                    &&& forall|i: int|
                        0 <= i < old(self).jobs@.len() && watches(
                            candidates@,
                            (#[trigger] old(self).jobs@[i]).queue@,
                        ) ==> old(self).jobs@[i].pri <= j.pri
                },
                None => {
                    &&& final(self).jobs@ == old(self).jobs@
                    &&& forall|i: int|
                        0 <= i < old(self).jobs@.len() ==> !watches(
                            candidates@,
                            (#[trigger] old(self).jobs@[i]).queue@,
                        )
                },
            },
    {
        let mut best: usize = 0;
        let mut found = false;
        let mut i: usize = 0;
        while i < self.jobs.len()
            invariant
                self == old(self),
                i <= self.jobs@.len(),
                found ==> best < i && watches(candidates@, self.jobs@[best as int].queue@),
                forall|q: int|
                    0 <= q < i && watches(
                        candidates@,
                        (#[trigger] self.jobs@[q]).queue@,
                    ) ==> found && self.jobs@[q].pri <= self.jobs@[best as int].pri,
            decreases self.jobs@.len() - i,
        {
            let mut hit = false;
            let mut c: usize = 0;
            while c < candidates.len()
                invariant
                    self == old(self),
                    i < self.jobs@.len(),
                    c <= candidates@.len(),
                    hit ==> watches(candidates@, self.jobs@[i as int].queue@),
                    !hit ==> forall|q: int|
                        0 <= q < c ==> (#[trigger] candidates@[q])@ != self.jobs@[
                            i as int
                        ].queue@,
                decreases candidates@.len() - c,
            {
                if bytes_eq(candidates[c].as_slice(), self.jobs[i].queue.as_slice()) {
                    hit = true;
                }
                c = c + 1;
            }
            if hit {
                if !found || self.jobs[best].pri < self.jobs[i].pri {
                    best = i;
                }
                found = true;
            } else {
                proof {
                    if watches(candidates@, self.jobs@[i as int].queue@) {
                        let q = choose|q: int|
                            0 <= q < candidates@.len() && (#[trigger] candidates@[q])@
                                == self.jobs@[i as int].queue@;
                        assert(false);
                    }
                }
            }
            i = i + 1;
        }
        if !found {
            return None;
        }
        let j = self.jobs.remove(best);
        proof {
            assert forall|p: int, q: int|
                0 <= p < q < self.jobs@.len() implies (#[trigger] self.jobs@[p]).id != (
            #[trigger] self.jobs@[q]).id by {
                assert(self.jobs@[p] == if p < best {
                    old(self).jobs@[p]
                } else {
                    old(self).jobs@[p + 1]
                });
                assert(self.jobs@[q] == if q < best {
                    old(self).jobs@[q]
                } else {
                    old(self).jobs@[q + 1]
                });
            }
            assert forall|p: int|
                0 <= p < self.jobs@.len() implies (#[trigger] self.jobs@[p]).id
                < self.next_id by {
                assert(self.jobs@[p] == if p < best {
                    old(self).jobs@[p]
                } else {
                    old(self).jobs@[p + 1]
                });
            }
        }
        Some(j)
    }

    /// Removes the waiting job with this id, if one waits.
    pub fn del(&mut self, id: usize) -> (r: Option<()>)
        requires
            old(self).wf(),
        ensures
            final(self).wf(),
            final(self).next_id == old(self).next_id,
            ({
                let f = find_job(old(self).jobs@, id);
                if f < old(self).jobs@.len() {
                    r is Some && final(self).jobs@ == old(self).jobs@.remove(f)
                } else {
                    r is None && final(self).jobs@ == old(self).jobs@
                }
            }),
    {
        let mut i: usize = 0;
        while i < self.jobs.len()
            invariant
                old(self).wf(),
                self == old(self),
                i <= self.jobs@.len(),
                forall|q: int| 0 <= q < i ==> (#[trigger] self.jobs@[q]).id != id,
            decreases self.jobs@.len() - i,
        {
            if self.jobs[i].id == id {
                proof {
                    lemma_find_job_is(self.jobs@, id, i as int);
                }
                let _gone = self.jobs.remove(i);
                proof {
                    assert forall|p: int, q: int|
                        0 <= p < q < self.jobs@.len() implies (#[trigger] self.jobs@[p]).id
                        != (#[trigger] self.jobs@[q]).id by {
                        assert(self.jobs@[p] == if p < i {
                            old(self).jobs@[p]
                        } else {
                            old(self).jobs@[p + 1]
                        });
                        assert(self.jobs@[q] == if q < i {
                            old(self).jobs@[q]
                        } else {
                            old(self).jobs@[q + 1]
                        });
                    }
                    assert forall|p: int|
                        0 <= p < self.jobs@.len() implies (#[trigger] self.jobs@[p]).id
                        < self.next_id by {
                        assert(self.jobs@[p] == if p < i {
                            old(self).jobs@[p]
                        } else {
                            old(self).jobs@[p + 1]
                        });
                    }
                }
                return Some(());
            }
            i = i + 1;
        }
        proof {
            lemma_find_job_is(self.jobs@, id, self.jobs@.len() as int);
        }
        None
    }
}

/// One job being worked on, and by which client.
pub struct InFlight {
    pub job: Job,
    pub client_id: usize,
}

/// Index of the first in-flight entry for this job id, or `len`.
pub open spec fn find_inflight(es: Seq<InFlight>, id: usize) -> int
    decreases es.len(),
{
    if es.len() == 0 {
        0
    } else if es[0].job.id == id {
        0
    } else {
        1 + find_inflight(es.skip(1), id)
    }
}

/// What [`find_inflight`] points at, for callers reading the
/// contracts that cite it.
pub proof fn lemma_find_inflight(es: Seq<InFlight>, id: usize)
    ensures
        0 <= find_inflight(es, id) <= es.len(),
        find_inflight(es, id) < es.len() ==> es[find_inflight(es, id)].job.id == id,
        forall|i: int| 0 <= i < find_inflight(es, id) ==> (#[trigger] es[i]).job.id != id,
    decreases es.len(),
{
    if es.len() > 0 && es[0].job.id != id {
        lemma_find_inflight(es.skip(1), id);
        let f = find_inflight(es, id);
        assert forall|i: int| 0 <= i < f implies (#[trigger] es[i]).job.id != id by {
            if i >= 1 {
                assert(es.skip(1)[i - 1] == es[i]);
            }
        }
        if f < es.len() {
            assert(es[f] == es.skip(1)[find_inflight(es.skip(1), id)]);
        }
    }
}

proof fn lemma_find_inflight_is(es: Seq<InFlight>, id: usize, k: int)
    requires
        0 <= k <= es.len(),
        k < es.len() ==> es[k].job.id == id,
        forall|i: int| 0 <= i < k ==> (#[trigger] es[i]).job.id != id,
    ensures
        find_inflight(es, id) == k,
    decreases es.len(),
{
    if es.len() == 0 {
    } else if es[0].job.id == id {
        assert(k == 0);
    } else {
        assert(k >= 1);
        assert(forall|i: int| 0 <= i < k - 1 ==> #[trigger] es.skip(1)[i] == es[i + 1]);
        if k < es.len() {
            assert(es.skip(1)[k - 1] == es[k]);
        }
        lemma_find_inflight_is(es.skip(1), id, k - 1);
    }
}

/// The jobs currently worked on, keyed by job id.
pub struct InFlightQueue(pub Vec<InFlight>);

impl InFlightQueue {
    pub fn new() -> (r: InFlightQueue)
        ensures
            r.0@.len() == 0,
    {
        InFlightQueue(Vec::new())
    }

    /// Records a job as in flight for a client; a stale entry under the
    /// same id is replaced, as a keyed insert replaces.
    pub fn add(&mut self, job: Job, client_id: usize)
        ensures
            ({
                let f = find_inflight(old(self).0@, job.id);
                let entered = final(self).0@.last();
                &&& entered.job == job
                &&& entered.client_id == client_id
                &&& if f < old(self).0@.len() {
                    final(self).0@ == old(self).0@.remove(f).push(entered)
                } else {
                    final(self).0@ == old(self).0@.push(entered)
                }
            }),
    {
        let mut i: usize = 0;
        let mut cut = false;
        while i < self.0.len() && !cut
            invariant
                self == old(self),
                i <= self.0@.len(),
                !cut ==> forall|q: int| 0 <= q < i ==> (#[trigger] self.0@[q]).job.id
                    != job.id,
                cut ==> false,
            decreases self.0@.len() - i,
        {
            if self.0[i].job.id == job.id {
                proof {
                    lemma_find_inflight_is(self.0@, job.id, i as int);
                }
                let _gone = self.0.remove(i);
                self.0.push(InFlight { job, client_id });
                return ;
            }
            i = i + 1;
        }
        proof {
            lemma_find_inflight_is(self.0@, job.id, self.0@.len() as int);
        }
        self.0.push(InFlight { job, client_id });
    }

    /// Drops the in-flight entry for this id, if one exists.
    pub fn del(&mut self, id: usize) -> (r: Option<()>)
        ensures
            ({
                let f = find_inflight(old(self).0@, id);
                if f < old(self).0@.len() {
                    r is Some && final(self).0@ == old(self).0@.remove(f)
                } else {
                    r is None && final(self).0@ == old(self).0@
                }
            }),
    {
        let mut i: usize = 0;
        while i < self.0.len()
            invariant
                self == old(self),
                i <= self.0@.len(),
                forall|q: int| 0 <= q < i ==> (#[trigger] self.0@[q]).job.id != id,
            decreases self.0@.len() - i,
        {
            if self.0[i].job.id == id {
                proof {
                    lemma_find_inflight_is(self.0@, id, i as int);
                }
                let _gone = self.0.remove(i);
                return Some(());
            }
            i = i + 1;
        }
        proof {
            lemma_find_inflight_is(self.0@, id, self.0@.len() as int);
        }
        None
    }

    /// Aborts a job: only its own client may, and the job goes back to
    /// its queue.
    pub fn abort(&mut self, queues: &mut JobQueues, job_id: usize, client_id: usize) -> (r:
        Result<Option<()>, ()>)
        requires
            old(queues).wf(),
            forall|i: int| 0 <= i < old(self).0@.len() ==> (#[trigger] old(
                self,
            ).0@[i]).job.id < old(queues).next_id,
            forall|i: int, j: int|
                0 <= i < old(self).0@.len() && 0 <= j < old(queues).jobs@.len() ==> (
                #[trigger] old(self).0@[i]).job.id != (#[trigger] old(queues).jobs@[j]).id,
        ensures
            final(queues).wf(),
            final(queues).next_id == old(queues).next_id,
            ({
                let f = find_inflight(old(self).0@, job_id);
                if f < old(self).0@.len() {
                    if old(self).0@[f].client_id != client_id {
                        r is Err && final(self).0@ == old(self).0@ && final(queues).jobs@
                            == old(queues).jobs@
                    } else {
                        r == Ok::<Option<()>, ()>(Some(())) && final(self).0@ == old(
                            self,
                        ).0@.remove(f) && final(queues).jobs@ == old(queues).jobs@.push(
                            old(self).0@[f].job,
                        )
                    }
                } else {
                    r == Ok::<Option<()>, ()>(None) && final(self).0@ == old(self).0@
                        && final(queues).jobs@ == old(queues).jobs@
                }
            }),
    {
        let mut i: usize = 0;
        while i < self.0.len()
            invariant
                self == old(self),
                queues == old(queues),
                old(queues).wf(),
                forall|q: int| 0 <= q < old(self).0@.len() ==> (#[trigger] old(
                    self,
                ).0@[q]).job.id < old(queues).next_id,
                forall|p: int, q: int|
                    0 <= p < old(self).0@.len() && 0 <= q < old(queues).jobs@.len() ==> (
                    #[trigger] old(self).0@[p]).job.id != (#[trigger] old(
                        queues,
                    ).jobs@[q]).id,
                i <= self.0@.len(),
                forall|q: int| 0 <= q < i ==> (#[trigger] self.0@[q]).job.id != job_id,
            decreases self.0@.len() - i,
        {
            if self.0[i].job.id == job_id {
                proof {
                    lemma_find_inflight_is(self.0@, job_id, i as int);
                }
                if self.0[i].client_id != client_id {
                    return Err(());
                }
                let entry = self.0.remove(i);
                queues.restore(entry.job);
                return Ok(Some(()));
            }
            i = i + 1;
        }
        proof {
            lemma_find_inflight_is(self.0@, job_id, self.0@.len() as int);
        }
        Ok(None)
    }

    /// A client disconnected: everything it had in flight goes back to
    /// the queues, oldest first.
    pub fn cleanup(&mut self, queues: &mut JobQueues, client_id: usize)
        requires
            old(queues).wf(),
            forall|i: int| 0 <= i < old(self).0@.len() ==> (#[trigger] old(
                self,
            ).0@[i]).job.id < old(queues).next_id,
            forall|i: int, j: int|
                0 <= i < old(self).0@.len() && 0 <= j < old(self).0@.len() && i != j ==> (
                #[trigger] old(self).0@[i]).job.id != (#[trigger] old(self).0@[j]).job.id,
            forall|i: int, j: int|
                0 <= i < old(self).0@.len() && 0 <= j < old(queues).jobs@.len() ==> (
                #[trigger] old(self).0@[i]).job.id != (#[trigger] old(queues).jobs@[j]).id,
        ensures
            final(queues).wf(),
            final(queues).next_id == old(queues).next_id,
            forall|i: int|
                0 <= i < final(self).0@.len() ==> (#[trigger] final(self).0@[i]).client_id
                    != client_id,
            final(self).0@.len() + (final(queues).jobs@.len() - old(queues).jobs@.len())
                == old(self).0@.len(),
            old(queues).jobs@.is_prefix_of(final(queues).jobs@),
    {
        let mut i: usize = 0;
        while i < self.0.len()
            invariant
                queues.wf(),
                queues.next_id == old(queues).next_id,
                i <= self.0@.len(),
                forall|q: int|
                    0 <= q < i ==> (#[trigger] self.0@[q]).client_id != client_id,
                forall|p: int| 0 <= p < self.0@.len() ==> (#[trigger] self.0@[p]).job.id
                    < queues.next_id,
                forall|p: int, q: int|
                    0 <= p < self.0@.len() && 0 <= q < self.0@.len() && p != q ==> (
                    #[trigger] self.0@[p]).job.id != (#[trigger] self.0@[q]).job.id,
                forall|p: int, q: int|
                    0 <= p < self.0@.len() && 0 <= q < queues.jobs@.len() ==> (
                    #[trigger] self.0@[p]).job.id != (#[trigger] queues.jobs@[q]).id,
                self.0@.len() + (queues.jobs@.len() - old(queues).jobs@.len()) == old(
                    self,
                ).0@.len(),
                old(queues).jobs@.is_prefix_of(queues.jobs@),
            decreases self.0@.len() - i,
        {
            if self.0[i].client_id == client_id {
                let ghost pre = self.0@;
                let ghost preq = queues.jobs@;
                let entry = self.0.remove(i);
                queues.restore(entry.job);
                proof {
                    assert forall|p: int, q: int|
                        0 <= p < self.0@.len() && 0 <= q < self.0@.len() && p != q implies (
                    #[trigger] self.0@[p]).job.id != (#[trigger] self.0@[q]).job.id by {
                        assert(self.0@[p] == if p < i { pre[p] } else { pre[p + 1] });
                        assert(self.0@[q] == if q < i { pre[q] } else { pre[q + 1] });
                    }
                    assert forall|p: int, q: int|
                        0 <= p < self.0@.len() && 0 <= q < queues.jobs@.len() implies (
                    #[trigger] self.0@[p]).job.id != (#[trigger] queues.jobs@[q]).id by {
                        assert(self.0@[p] == if p < i { pre[p] } else { pre[p + 1] });
                        if q < preq.len() {
                            assert(queues.jobs@[q] == preq[q]);
                        } else {
                            assert(queues.jobs@[q] == entry.job);
                        }
                    }
                    assert forall|p: int|
                        0 <= p < self.0@.len() implies (#[trigger] self.0@[p]).job.id
                        < queues.next_id by {
                        assert(self.0@[p] == if p < i { pre[p] } else { pre[p + 1] });
                    }
                    assert(old(queues).jobs@.is_prefix_of(queues.jobs@));
                }
            } else {
                i = i + 1;
            }
        }
    }
}

} // verus!
