//! Retransmission bookkeeping: which chunks are pending, and which
//! retry task a cancellation reaches.
//!
//! Every chunk handed over by the dispatcher becomes one pending entry,
//! keyed by `(session, expected_ack)` and carrying a fresh task id; the
//! caller runs one timer loop per task id. An acknowledgment cancels the
//! oldest pending entry of its exact key and no other; a close cancels
//! every entry of its session. The timer loop itself has one decision to
//! make per wakeup, written down in [`retry_step`]: resend on a tick,
//! stop on a cancellation or on the final timeout.

use vstd::prelude::*;
use vstd::seq_lib::*;
use crate::codec::Data;
use crate::codec::Session;
use crate::codec::bytes_eq;
use crate::dispatch::MsgQueueCommands;

verus! {

/// One outstanding chunk: its session, the acknowledgment length that
/// retires it, and the id of the timer task resending it.
pub struct PendingChunk {
    pub session: Session,
    pub expected_ack: usize,
    pub task: usize,
}

/// The pending table, in the order the chunks were queued.
pub struct RetryQueue {
    pub pending: Vec<PendingChunk>,
    pub next_task: usize,
}

/// What one command asks the caller to do with its timer tasks: start
/// one for a queued chunk, or stop the listed ones.
pub enum RetryEffect<A> {
    Spawn(usize, A, Data),
    Cancel(Vec<usize>),
}

/// Index of the oldest pending entry with the given key, or `ps.len()`.
pub open spec fn find_pending(ps: Seq<PendingChunk>, s: Seq<u8>, l: int) -> int
    decreases ps.len(),
{
    if ps.len() == 0 {
        0
    } else if ps[0].session@ == s && ps[0].expected_ack == l {
        0
    } else {
        1 + find_pending(ps.skip(1), s, l)
    }
}

/// What [`find_pending`] points at, for callers reading the contract
/// of [`RetryQueue::handle`]: a real match with nothing older, or the
/// length when no entry has the key.
pub proof fn lemma_find_pending(ps: Seq<PendingChunk>, s: Seq<u8>, l: int)
    ensures
        0 <= find_pending(ps, s, l) <= ps.len(),
        find_pending(ps, s, l) < ps.len() ==> ps[find_pending(ps, s, l)].session@ == s
            && ps[find_pending(ps, s, l)].expected_ack == l,
        forall|i: int|
            0 <= i < find_pending(ps, s, l) ==> !((#[trigger] ps[i]).session@ == s
                && ps[i].expected_ack == l),
    decreases ps.len(),
{
    if ps.len() > 0 && !(ps[0].session@ == s && ps[0].expected_ack == l) {
        lemma_find_pending(ps.skip(1), s, l);
        let f = find_pending(ps, s, l);
        assert forall|i: int|
            0 <= i < f implies !((#[trigger] ps[i]).session@ == s && ps[i].expected_ack
            == l) by {
            if i >= 1 {
                assert(ps.skip(1)[i - 1] == ps[i]);
            }
        }
        if f < ps.len() {
            assert(ps[f] == ps.skip(1)[find_pending(ps.skip(1), s, l)]);
        }
    }
}

proof fn lemma_find_pending_is(ps: Seq<PendingChunk>, s: Seq<u8>, l: int, k: int)
    requires
        0 <= k <= ps.len(),
        k < ps.len() ==> ps[k].session@ == s && ps[k].expected_ack == l,
        forall|i: int|
            0 <= i < k ==> !((#[trigger] ps[i]).session@ == s && ps[i].expected_ack == l),
    ensures
        find_pending(ps, s, l) == k,
    decreases ps.len(),
{
    if ps.len() == 0 {
    } else if ps[0].session@ == s && ps[0].expected_ack == l {
        assert(k == 0);
    } else {
        assert(k >= 1);
        assert(forall|i: int| 0 <= i < k - 1 ==> #[trigger] ps.skip(1)[i] == ps[i + 1]);
        if k < ps.len() {
            assert(ps.skip(1)[k - 1] == ps[k]);
        }
        lemma_find_pending_is(ps.skip(1), s, l, k - 1);
    }
}

pub open spec fn keeps_session(s: Seq<u8>) -> spec_fn(PendingChunk) -> bool {
    |p: PendingChunk| p.session@ != s
}

pub open spec fn names_session(s: Seq<u8>) -> spec_fn(PendingChunk) -> bool {
    |p: PendingChunk| p.session@ == s
}

pub open spec fn task_of() -> spec_fn(PendingChunk) -> usize {
    |p: PendingChunk| p.task
}

impl RetryQueue {
    /// Task ids are issued in order and never repeat.
    pub open spec fn wf(self) -> bool {
        &&& forall|i: int|
            0 <= i < self.pending@.len() ==> (#[trigger] self.pending@[i]).task
                < self.next_task
        &&& forall|i: int, j: int|
            0 <= i < j < self.pending@.len() ==> (#[trigger] self.pending@[i]).task != (
            #[trigger] self.pending@[j]).task
    }

    /// An empty table, with task ids starting at zero.
    pub fn new() -> (r: RetryQueue)
        ensures
            r.pending@.len() == 0,
            r.next_task == 0,
            r.wf(),
    {
        RetryQueue { pending: Vec::new(), next_task: 0 }
    }

    /// Applies one dispatcher command.
    ///
    /// A queued chunk gets the next task id and is to be spawned; an
    /// acknowledgment retires the oldest entry of exactly its
    /// `(session, length)` key, and no entry at all when none matches;
    /// a close retires every entry of its session, oldest first.
    pub fn handle<A: Copy>(&mut self, cmd: MsgQueueCommands<A>) -> (r: RetryEffect<A>)
        requires
            old(self).wf(),
            old(self).next_task < usize::MAX,
        ensures
            final(self).wf(),
            cmd matches MsgQueueCommands::Add(exp, a, d) ==> {
                &&& final(self).pending@.len() == old(self).pending@.len() + 1
                &&& final(self).pending@.take(old(self).pending@.len() as int) == old(
                    self,
                ).pending@
                &&& final(self).pending@.last().session@ == d.session@
                &&& final(self).pending@.last().expected_ack == exp
                &&& final(self).pending@.last().task == old(self).next_task
                &&& final(self).next_task == old(self).next_task + 1
                &&& (r matches RetryEffect::Spawn(t, aa, dd) && t == old(self).next_task && aa
                    == a && dd@ == d@)
            },
            cmd matches MsgQueueCommands::Ack(k) ==> {
                let f = find_pending(old(self).pending@, k.session@, k.len as int);
                &&& final(self).next_task == old(self).next_task
                &&& f < old(self).pending@.len() ==> {
                    &&& final(self).pending@ == old(self).pending@.remove(f)
                    &&& (r matches RetryEffect::Cancel(ts) && ts@ == seq![
                        old(self).pending@[f].task,
                    ])
                }
                &&& f == old(self).pending@.len() ==> {
                    &&& final(self).pending@ == old(self).pending@
                    &&& (r matches RetryEffect::Cancel(ts) && ts@.len() == 0)
                }
            },
            cmd matches MsgQueueCommands::Closed(s) ==> {
                &&& final(self).next_task == old(self).next_task
                &&& final(self).pending@ == old(self).pending@.filter(keeps_session(s@))
                &&& (r matches RetryEffect::Cancel(ts) && ts@ == old(self).pending@.filter(
                    names_session(s@),
                ).map_values(task_of()))
            },
    {
        match cmd {
            MsgQueueCommands::Add(exp, a, d) => {
                let t = self.next_task;
                self.next_task = self.next_task + 1;
                self.pending.push(
                    PendingChunk { session: d.session.clone(), expected_ack: exp, task: t },
                );
                proof {
                    assert(self.pending@.take(old(self).pending@.len() as int) =~= old(
                        self,
                    ).pending@);
                }
                RetryEffect::Spawn(t, a, d)
            },
            MsgQueueCommands::Ack(k) => {
                let mut i: usize = 0;
                let mut cancels: Vec<usize> = Vec::new();
                while i < self.pending.len()
                    invariant
                        old(self).wf(),
                        self == old(self),
                        cmd == MsgQueueCommands::Ack::<A>(k),
                        cancels@ == Seq::<usize>::empty(),
                        i <= self.pending@.len(),
                        forall|j: int|
                            0 <= j < i ==> !((#[trigger] self.pending@[j]).session@
                                == k.session@ && self.pending@[j].expected_ack == k.len),
                    decreases self.pending@.len() - i,
                {
                    let hit = bytes_eq(
                        self.pending[i].session.0.as_slice(),
                        k.session.0.as_slice(),
                    ) && self.pending[i].expected_ack == k.len;
                    if hit {
                        proof {
                            lemma_find_pending_is(
                                self.pending@,
                                k.session@,
                                k.len as int,
                                i as int,
                            );
                        }
                        let gone = self.pending.remove(i);
                        cancels.push(gone.task);
                        proof {
                            assert(cancels@ =~= seq![old(self).pending@[i as int].task]);
                            assert forall|p: int, q: int|
                                0 <= p < q < self.pending@.len() implies (
                            #[trigger] self.pending@[p]).task != (
                            #[trigger] self.pending@[q]).task by {
                                assert(self.pending@[p] == if p < i {
                                    old(self).pending@[p]
                                } else {
                                    old(self).pending@[p + 1]
                                });
                                assert(self.pending@[q] == if q < i {
                                    old(self).pending@[q]
                                } else {
                                    old(self).pending@[q + 1]
                                });
                            }
                            assert forall|p: int|
                                0 <= p < self.pending@.len() implies (
                            #[trigger] self.pending@[p]).task < self.next_task by {
                                assert(self.pending@[p] == if p < i {
                                    old(self).pending@[p]
                                } else {
                                    old(self).pending@[p + 1]
                                });
                            }
                        }
                        return RetryEffect::Cancel(cancels);
                    }
                    i = i + 1;
                }
                proof {
                    lemma_find_pending_is(
                        self.pending@,
                        k.session@,
                        k.len as int,
                        self.pending@.len() as int,
                    );
                }
                RetryEffect::Cancel(cancels)
            },
            MsgQueueCommands::Closed(s) => {
                let mut kept: Vec<PendingChunk> = Vec::new();
                let mut cancels: Vec<usize> = Vec::new();
                let ghost orig = self.pending@;
                let ghost mut j: int = 0;
                proof {
                    reveal(Seq::filter);
                    assert(orig.skip(0) =~= orig);
                    assert(orig.take(0) =~= Seq::<PendingChunk>::empty());
                    assert(orig.take(0).filter(keeps_session(s@)) =~= Seq::<
                        PendingChunk,
                    >::empty());
                    assert(orig.take(0).filter(names_session(s@)) =~= Seq::<
                        PendingChunk,
                    >::empty());
                }
                while self.pending.len() > 0
                    invariant
                        old(self).wf(),
                        orig == old(self).pending@,
                        self.next_task == old(self).next_task,
                        0 <= j <= orig.len(),
                        self.pending@ == orig.skip(j),
                        kept@ == orig.take(j).filter(keeps_session(s@)),
                        cancels@ == orig.take(j).filter(names_session(s@)).map_values(
                            task_of(),
                        ),
                        forall|p: int|
                            0 <= p < kept@.len() ==> exists|q: int|
                                0 <= q < j && (#[trigger] kept@[p]) == orig[q],
                        forall|p1: int, p2: int|
                            0 <= p1 < p2 < kept@.len() ==> (#[trigger] kept@[p1]).task != (
                            #[trigger] kept@[p2]).task,
                    decreases self.pending@.len(),
                {
                    let p = self.pending.remove(0);
                    proof {
                        assert(p == orig[j]);
                        assert(self.pending@ =~= orig.skip(j + 1));
                    }
                    let keep = !bytes_eq(p.session.0.as_slice(), s.0.as_slice());
                    proof {
                        reveal(Seq::filter);
                        assert(orig.take(j + 1).drop_last() =~= orig.take(j));
                        assert(orig.take(j + 1).last() == orig[j]);
                    }
                    if keep {
                        kept.push(p);
                        proof {
                            reveal(Seq::filter);
                            assert(kept@ =~= orig.take(j + 1).filter(keeps_session(s@)));
                            assert(cancels@ =~= orig.take(j + 1).filter(
                                names_session(s@),
                            ).map_values(task_of()));
                            assert forall|pp: int|
                                0 <= pp < kept@.len() implies exists|q: int|
                                0 <= q < j + 1 && (#[trigger] kept@[pp]) == orig[q] by {
                                if pp == kept@.len() - 1 {
                                    assert(kept@[pp] == orig[j]);
                                } else {
                                    let q = choose|q: int|
                                        0 <= q < j && kept@.drop_last()[pp] == orig[q];
                                    assert(kept@[pp] == orig[q]);
                                }
                            }
                            assert forall|p1: int, p2: int|
                                0 <= p1 < p2 < kept@.len() implies (
                            #[trigger] kept@[p1]).task != (#[trigger] kept@[p2]).task by {
                                if p2 == kept@.len() - 1 {
                                    let q = choose|q: int|
                                        0 <= q < j && kept@.drop_last()[p1] == orig[q];
                                    assert(kept@[p1] == orig[q]);
                                    assert(kept@[p2] == orig[j]);
                                }
                            }
                        }
                    } else {
                        cancels.push(p.task);
                        proof {
                            reveal(Seq::filter);
                            assert(kept@ =~= orig.take(j + 1).filter(keeps_session(s@)));
                            assert(cancels@ =~= orig.take(j + 1).filter(
                                names_session(s@),
                            ).map_values(task_of()));
                        }
                    }
                    proof {
                        j = j + 1;
                    }
                }
                proof {
                    assert(j == orig.len());
                    assert(orig.take(orig.len() as int) =~= orig);
                }
                self.pending = kept;
                proof {
                    assert forall|p: int|
                        0 <= p < self.pending@.len() implies (
                    #[trigger] self.pending@[p]).task < self.next_task by {
                        let q = choose|q: int|
                            0 <= q < orig.len() && self.pending@[p] == orig[q];
                        assert(orig[q].task < old(self).next_task);
                    }
                }
                RetryEffect::Cancel(cancels)
            },
        }
    }
}

/// What one wakeup of a chunk's retry loop does: a 3-second tick resends
/// the same encoded message; a cancellation or the 60-second timeout
/// ends the loop, silently either way.
pub enum RetryEvent {
    Tick,
    Cancelled,
    TimedOut,
}

pub enum RetryAction {
    Resend,
    Stop,
}

pub fn retry_step(ev: &RetryEvent) -> (r: RetryAction)
    ensures
        r == (match ev {
            RetryEvent::Tick => RetryAction::Resend,
            RetryEvent::Cancelled => RetryAction::Stop,
            RetryEvent::TimedOut => RetryAction::Stop,
        }),
{
    match ev {
        RetryEvent::Tick => RetryAction::Resend,
        RetryEvent::Cancelled => RetryAction::Stop,
        RetryEvent::TimedOut => RetryAction::Stop,
    }
}

} // verus!
