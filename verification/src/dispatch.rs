//! The session dispatcher: the protocol state machine.
//!
//! One serialized dispatcher owns every session. It consumes inbound
//! `(source, message)` events one at a time, mutates at most the named
//! session, and hands back the datagrams to send and the commands for
//! the retransmission engine. A session is *absent* until a valid
//! `connect`, *active* while it lives, and absent again after `close`;
//! there is no other state.

use vstd::prelude::*;
use vstd::seq_lib::*;
use crate::codec::Ack;
use crate::codec::Data;
use crate::codec::Message;
use crate::codec::Session;
use crate::codec::bytes_eq;
use crate::session::Client;
use crate::session::chunk_end;
use crate::session::transform;

verus! {

/// What the dispatcher asks of the retransmission engine: queue a chunk
/// (with its expected acknowledgment length and destination), cancel the
/// chunk a matching acknowledgment names, or drop a whole session.
pub enum MsgQueueCommands<A> {
    Add(usize, A, Data),
    Ack(Ack),
    Closed(Session),
}

/// Everything one inbound event produces: datagrams to send back and
/// commands for the retransmission engine.
pub struct DispatchOutput<A> {
    pub replies: Vec<(A, Message)>,
    pub commands: Vec<MsgQueueCommands<A>>,
}

/// The live-session table, owned exclusively by the dispatcher.
pub struct Dispatcher<A> {
    pub clients: Vec<Client<A>>,
}

/// Two session states that agree on everything but the peer address.
pub open spec fn same_streams<A>(a: Client<A>, b: Client<A>) -> bool {
    &&& a.session@ == b.session@
    &&& a.in_buf@ == b.in_buf@
    &&& a.out_buf@ == b.out_buf@
    &&& a.out_acked == b.out_acked
}

/// The tables agree everywhere but at `idx`.
pub open spec fn updated_at<A>(olds: Seq<Client<A>>, news: Seq<Client<A>>, idx: int) -> bool {
    &&& news.len() == olds.len()
    &&& forall|i: int| 0 <= i < olds.len() && i != idx ==> news[i] == #[trigger] olds[i]
}

impl<A> Dispatcher<A> {
    /// Every session is well formed and fully transformed, and no two
    /// share an id.
    pub open spec fn wf(self) -> bool {
        &&& forall|i: int|
            0 <= i < self.clients@.len() ==> (#[trigger] self.clients@[i]).wf()
                && self.clients@[i].synced()
        &&& forall|i: int, j: int|
            0 <= i < j < self.clients@.len() ==> (#[trigger] self.clients@[i]).session@
                != (#[trigger] self.clients@[j]).session@
    }

    pub open spec fn has_session(self, s: Seq<u8>) -> bool {
        exists|i: int|
            0 <= i < self.clients@.len() && (#[trigger] self.clients@[i]).session@ == s
    }

    pub open spec fn idx_of(self, s: Seq<u8>) -> int {
        choose|i: int|
            0 <= i < self.clients@.len() && (#[trigger] self.clients@[i]).session@ == s
    }

    /// The state of the session named `s`.
    pub open spec fn client_of(self, s: Seq<u8>) -> Client<A> {
        self.clients@[self.idx_of(s)]
    }

    /// An empty table: no session exists yet.
    pub fn new() -> (r: Dispatcher<A>)
        ensures
            r.clients@.len() == 0,
            r.wf(),
    {
        Dispatcher { clients: Vec::new() }
    }

    fn find_client(&self, s: &Session) -> (r: Option<usize>)
        ensures
            match r {
                Some(i) => i < self.clients@.len() && self.clients@[i as int].session@ == s@
                    && self.has_session(s@) && (self.wf() ==> i == self.idx_of(s@)),
                None => !self.has_session(s@),
            },
    {
        let mut i: usize = 0;
        while i < self.clients.len()
            invariant
                i <= self.clients@.len(),
                forall|j: int| 0 <= j < i ==> (#[trigger] self.clients@[j]).session@ != s@,
            decreases self.clients@.len() - i,
        {
            if bytes_eq(self.clients[i].session.0.as_slice(), s.0.as_slice()) {
                proof {
                    assert(self.has_session(s@));
                    if self.wf() {
                        let k = self.idx_of(s@);
                        assert(0 <= k < self.clients@.len() && self.clients@[k].session@ == s@);
                        if k != i {
                            assert(self.clients@[k].session@ != self.clients@[i as int].session@);
                        }
                    }
                }
                return Some(i);
            }
            i = i + 1;
        }
        None
    }
}

impl<A: Copy> Dispatcher<A> {
    /// Applies one inbound event, as the transitions of the protocol
    /// prescribe:
    ///
    /// - `connect` creates the session if it is new, and in every case
    ///   reconfirms with `ack` at the acknowledged length;
    /// - `data` for an unknown session is answered `close`; at the wrong
    ///   position it changes nothing and re-announces the expected
    ///   position; at the expected position it is absorbed, acknowledged,
    ///   and the whole unacknowledged output tail is re-offered;
    /// - `ack` for an unknown session is answered `close`; a stale one is
    ///   ignored; one past the output is a protocol violation answered
    ///   `close`; a partial one re-offers the tail it names without
    ///   advancing the acknowledged length; an exact one advances it and
    ///   cancels the matching pending chunk;
    /// - `close` removes the session and is always echoed.
    ///
    /// The peer address of the named session is overwritten by every
    /// event that finds it (last writer wins).
    #[verifier::rlimit(100)]
    pub fn handle_msg_in(&mut self, src: A, msg: Message) -> (out: DispatchOutput<A>)
        requires
            old(self).wf(),
        ensures
            final(self).wf(),
            // connect, unseen id: one fresh session appears.
            msg matches Message::Connect(s) ==> !old(self).has_session(s@) ==> {
                &&& final(self).clients@.len() == old(self).clients@.len() + 1
                &&& final(self).clients@.take(old(self).clients@.len() as int) == old(
                    self,
                ).clients@
                &&& final(self).clients@.last().session@ == s@
                &&& final(self).clients@.last().in_buf@ == Seq::<u8>::empty()
                &&& final(self).clients@.last().out_buf@ == Seq::<u8>::empty()
                &&& final(self).clients@.last().out_acked == 0
                &&& final(self).clients@.last().src == src
                &&& out.commands@.len() == 0
                &&& out.replies@.len() == 1
                &&& out.replies@[0].0 == src
                &&& out.replies@[0].1 matches Message::Ack(a) && a.session@ == s@ && a.len == 0
            },
            // connect, known id: a replay only reconfirms.
            msg matches Message::Connect(s) ==> old(self).has_session(s@) ==> {
                &&& updated_at(old(self).clients@, final(self).clients@, old(self).idx_of(s@))
                &&& same_streams(
                    final(self).clients@[old(self).idx_of(s@)],
                    old(self).client_of(s@),
                )
                &&& final(self).clients@[old(self).idx_of(s@)].src == src
                &&& out.commands@.len() == 0
                &&& out.replies@.len() == 1
                &&& out.replies@[0].0 == src
                &&& out.replies@[0].1 matches Message::Ack(a) && a.session@ == s@ && a.len
                    == old(self).client_of(s@).out_acked
            },
            // data, unknown session: the stream cannot be resumed.
            msg matches Message::Data(d) ==> !old(self).has_session(d.session@) ==> {
                &&& final(self).clients@ == old(self).clients@
                &&& out.commands@.len() == 0
                &&& out.replies@.len() == 1
                &&& out.replies@[0].0 == src
                &&& out.replies@[0].1 matches Message::Close(c) && c@ == d.session@
            },
            // data at the wrong position: no mutation, re-announce what
            // is expected (this is also the dedup path for duplicates).
            msg matches Message::Data(d) ==> old(self).has_session(d.session@) && d.pos != old(
                self,
            ).client_of(d.session@).in_buf@.len() ==> {
                &&& updated_at(
                    old(self).clients@,
                    final(self).clients@,
                    old(self).idx_of(d.session@),
                )
                &&& same_streams(
                    final(self).clients@[old(self).idx_of(d.session@)],
                    old(self).client_of(d.session@),
                )
                &&& final(self).clients@[old(self).idx_of(d.session@)].src == src
                &&& out.commands@.len() == 0
                &&& out.replies@.len() == 1
                &&& out.replies@[0].0 == src
                &&& out.replies@[0].1 matches Message::Ack(a) && a.session@ == d.session@
                    && a.len == old(self).client_of(d.session@).in_buf@.len()
            },
            // data at the expected position: absorb, acknowledge all
            // input, and re-offer the whole unacknowledged output tail.
            msg matches Message::Data(d) ==> old(self).has_session(d.session@) && d.pos == old(
                self,
            ).client_of(d.session@).in_buf@.len() ==> {
                let idx = old(self).idx_of(d.session@);
                let oldc = old(self).client_of(d.session@);
                let newc = final(self).clients@[idx];
                let acked = oldc.out_acked as int;
                &&& updated_at(old(self).clients@, final(self).clients@, idx)
                &&& newc.session@ == d.session@
                &&& newc.in_buf@ == oldc.in_buf@ + d.data@
                &&& newc.out_buf@ == transform(oldc.in_buf@ + d.data@)
                &&& newc.out_acked == oldc.out_acked
                &&& newc.src == src
                &&& out.replies@.len() == 1
                &&& out.replies@[0].0 == src
                &&& out.replies@[0].1 matches Message::Ack(a) && a.session@ == d.session@
                    && a.len == oldc.in_buf@.len() + d.data@.len()
                &&& out.commands@.len() == (newc.out_buf@.len() - acked + 767) / 768
                &&& forall|i: int|
                    0 <= i < out.commands@.len() ==> ((#[trigger] out.commands@[i]) matches
                        MsgQueueCommands::Add(exp, a, dd) && a == src && dd.session@
                        == d.session@ && dd.pos == acked + 768 * i && dd.data@
                        == newc.out_buf@.subrange(
                        acked + 768 * i,
                        chunk_end(acked, i, newc.out_buf@.len() as int),
                    ) && exp == dd.pos + dd.data@.len())
            },
            // ack, unknown session: answered close.
            msg matches Message::Ack(k) ==> !old(self).has_session(k.session@) ==> {
                &&& final(self).clients@ == old(self).clients@
                &&& out.commands@.len() == 0
                &&& out.replies@.len() == 1
                &&& out.replies@[0].0 == src
                &&& out.replies@[0].1 matches Message::Close(c) && c@ == k.session@
            },
            // stale ack: ignored.
            msg matches Message::Ack(k) ==> old(self).has_session(k.session@) && k.len <= old(
                self,
            ).client_of(k.session@).out_acked ==> {
                &&& updated_at(
                    old(self).clients@,
                    final(self).clients@,
                    old(self).idx_of(k.session@),
                )
                &&& same_streams(
                    final(self).clients@[old(self).idx_of(k.session@)],
                    old(self).client_of(k.session@),
                )
                &&& final(self).clients@[old(self).idx_of(k.session@)].src == src
                &&& out.commands@.len() == 0
                &&& out.replies@.len() == 0
            },
            // ack past the output: a protocol violation, answered close.
            // The session itself is kept: only the peer is told to go.
            msg matches Message::Ack(k) ==> old(self).has_session(k.session@) && k.len > old(
                self,
            ).client_of(k.session@).out_acked && k.len > old(self).client_of(
                k.session@,
            ).out_buf@.len() ==> {
                &&& updated_at(
                    old(self).clients@,
                    final(self).clients@,
                    old(self).idx_of(k.session@),
                )
                &&& same_streams(
                    final(self).clients@[old(self).idx_of(k.session@)],
                    old(self).client_of(k.session@),
                )
                &&& final(self).clients@[old(self).idx_of(k.session@)].src == src
                &&& out.commands@.len() == 0
                &&& out.replies@.len() == 1
                &&& out.replies@[0].0 == src
                &&& out.replies@[0].1 matches Message::Close(c) && c@ == k.session@
            },
            // partial ack: re-offer exactly the tail it names, without
            // advancing the acknowledged length.
            msg matches Message::Ack(k) ==> old(self).has_session(k.session@) && k.len > old(
                self,
            ).client_of(k.session@).out_acked && k.len < old(self).client_of(
                k.session@,
            ).out_buf@.len() ==> {
                let idx = old(self).idx_of(k.session@);
                let oldc = old(self).client_of(k.session@);
                &&& updated_at(old(self).clients@, final(self).clients@, idx)
                &&& same_streams(final(self).clients@[idx], oldc)
                &&& final(self).clients@[idx].src == src
                &&& out.replies@.len() == 0
                &&& out.commands@.len() == (oldc.out_buf@.len() - k.len + 767) / 768
                &&& forall|i: int|
                    0 <= i < out.commands@.len() ==> ((#[trigger] out.commands@[i]) matches
                        MsgQueueCommands::Add(exp, a, dd) && a == src && dd.session@
                        == k.session@ && dd.pos == k.len + 768 * i && dd.data@
                        == oldc.out_buf@.subrange(
                        k.len + 768 * i,
                        chunk_end(k.len as int, i, oldc.out_buf@.len() as int),
                    ) && exp == dd.pos + dd.data@.len())
            },
            // exact ack: the peer confirmed everything sent; advance and
            // cancel the matching pending chunk.
            msg matches Message::Ack(k) ==> old(self).has_session(k.session@) && k.len > old(
                self,
            ).client_of(k.session@).out_acked && k.len == old(self).client_of(
                k.session@,
            ).out_buf@.len() ==> {
                let idx = old(self).idx_of(k.session@);
                let oldc = old(self).client_of(k.session@);
                let newc = final(self).clients@[idx];
                &&& updated_at(old(self).clients@, final(self).clients@, idx)
                &&& newc.session@ == oldc.session@
                &&& newc.in_buf@ == oldc.in_buf@
                &&& newc.out_buf@ == oldc.out_buf@
                &&& newc.out_acked == k.len
                &&& newc.src == src
                &&& out.replies@.len() == 0
                &&& out.commands@.len() == 1
                &&& (out.commands@[0] matches MsgQueueCommands::Ack(ka) && ka.session@
                    == k.session@ && ka.len == k.len)
            },
            // close, known session: the session is gone.
            msg matches Message::Close(s) ==> old(self).has_session(s@) ==> final(self).clients@ == old(self).clients@.remove(old(self).idx_of(s@)),
            // close, unknown session: nothing to remove.
            msg matches Message::Close(s) ==> !old(self).has_session(s@) ==> final(self).clients@ == old(self).clients@,
            // close always cancels the session's chunks and echoes.
            msg matches Message::Close(s) ==> {
                &&& out.commands@.len() == 1
                &&& out.commands@[0] matches MsgQueueCommands::Closed(c) && c@ == s@
                &&& out.replies@.len() == 1
                &&& out.replies@[0].0 == src
                &&& out.replies@[0].1 matches Message::Close(c) && c@ == s@
            },
    {
        let mut replies: Vec<(A, Message)> = Vec::new();
        let mut commands: Vec<MsgQueueCommands<A>> = Vec::new();
        match msg {
            Message::Connect(s) => {
                match self.find_client(&s) {
                    Some(i) => {
                        let mut c = self.clients.remove(i);
                        c.src = src;
                        let l = c.out_acked;
                        self.clients.insert(i, c);
                        proof {
                            assert(self.clients@ =~= old(self).clients@.update(
                                i as int,
                                self.clients@[i as int],
                            ));
                        }
                        replies.push((src, Message::Ack(Ack { session: s, len: l })));
                    },
                    None => {
                        let ack_sess = s.clone();
                        let c = Client::new(s, src);
                        self.clients.push(c);
                        proof {
                            assert(self.clients@.take(old(self).clients@.len() as int)
                                =~= old(self).clients@);
                            assert forall|i: int, j: int|
                                0 <= i < j < self.clients@.len() implies (
                            #[trigger] self.clients@[i]).session@ != (
                            #[trigger] self.clients@[j]).session@ by {
                                if j == self.clients@.len() - 1 {
                                    assert(!old(self).has_session(
                                        self.clients@[j].session@,
                                    ));
                                }
                            }
                        }
                        replies.push((src, Message::Ack(Ack { session: ack_sess, len: 0 })));
                    },
                }
            },
            Message::Data(d) => {
                match self.find_client(&d.session) {
                    None => {
                        replies.push((src, Message::Close(d.session)));
                    },
                    Some(i) => {
                        let mut c = self.clients.remove(i);
                        c.src = src;
                        if d.pos != c.in_buf.len() {
                            let l = c.in_buf.len();
                            self.clients.insert(i, c);
                            proof {
                                assert(self.clients@ =~= old(self).clients@.update(
                                    i as int,
                                    self.clients@[i as int],
                                ));
                            }
                            replies.push(
                                (src, Message::Ack(Ack { session: d.session, len: l })),
                            );
                        } else {
                            c.absorb(d.data.as_slice());
                            let l = c.in_buf.len();
                            let acked = c.out_acked;
                            let mut chunks = c.emit_chunks(acked);
                            self.clients.insert(i, c);
                            proof {
                                assert(self.clients@ =~= old(self).clients@.update(
                                    i as int,
                                    self.clients@[i as int],
                                ));
                            }
                            replies.push(
                                (src, Message::Ack(Ack { session: d.session, len: l })),
                            );
                            let ghost orig = chunks@;
                            proof {
                                assert forall|q: int| 0 <= q < orig.len() implies (
                                #[trigger] orig[q]).pos + orig[q].data@.len() <= usize::MAX by {
                                    assert(orig[q].data@.len() <= 768);
                                }
                            }
                            while chunks.len() > 0
                                invariant
                                    forall|q: int|
                                        0 <= q < orig.len() ==> (#[trigger] orig[q]).pos
                                            + orig[q].data@.len() <= usize::MAX,
                                    commands@.len() + chunks@.len() == orig.len(),
                                    chunks@ =~= orig.skip(commands@.len() as int),
                                    forall|q: int|
                                        0 <= q < commands@.len() ==> ((
                                        #[trigger] commands@[q]) matches MsgQueueCommands::Add(
                                            exp,
                                            a,
                                            dd,
                                        ) && a == src && dd@ == orig[q]@ && exp == orig[q].pos
                                            + orig[q].data@.len()),
                                decreases chunks@.len(),
                            {
                                let ch = chunks.remove(0);
                                let exp = ch.pos + ch.data.len();
                                commands.push(MsgQueueCommands::Add(exp, src, ch));
                                proof {
                                    assert(chunks@ =~= orig.skip(commands@.len() as int));
                                }
                            }
                        }
                    },
                }
            },
            Message::Ack(k) => {
                match self.find_client(&k.session) {
                    None => {
                        replies.push((src, Message::Close(k.session)));
                    },
                    Some(i) => {
                        let mut c = self.clients.remove(i);
                        c.src = src;
                        if k.len <= c.out_acked {
                            self.clients.insert(i, c);
                            proof {
                                assert(self.clients@ =~= old(self).clients@.update(
                                    i as int,
                                    self.clients@[i as int],
                                ));
                            }
                        } else if k.len > c.out_buf.len() {
                            self.clients.insert(i, c);
                            proof {
                                assert(self.clients@ =~= old(self).clients@.update(
                                    i as int,
                                    self.clients@[i as int],
                                ));
                            }
                            replies.push((src, Message::Close(k.session)));
                        } else if k.len < c.out_buf.len() {
                            let mut chunks = c.emit_chunks(k.len);
                            self.clients.insert(i, c);
                            proof {
                                assert(self.clients@ =~= old(self).clients@.update(
                                    i as int,
                                    self.clients@[i as int],
                                ));
                            }
                            let ghost orig = chunks@;
                            proof {
                                assert forall|q: int| 0 <= q < orig.len() implies (
                                #[trigger] orig[q]).pos + orig[q].data@.len() <= usize::MAX by {
                                    assert(orig[q].data@.len() <= 768);
                                }
                            }
                            while chunks.len() > 0
                                invariant
                                    forall|q: int|
                                        0 <= q < orig.len() ==> (#[trigger] orig[q]).pos
                                            + orig[q].data@.len() <= usize::MAX,
                                    commands@.len() + chunks@.len() == orig.len(),
                                    chunks@ =~= orig.skip(commands@.len() as int),
                                    forall|q: int|
                                        0 <= q < commands@.len() ==> ((
                                        #[trigger] commands@[q]) matches MsgQueueCommands::Add(
                                            exp,
                                            a,
                                            dd,
                                        ) && a == src && dd@ == orig[q]@ && exp == orig[q].pos
                                            + orig[q].data@.len()),
                                decreases chunks@.len(),
                            {
                                let ch = chunks.remove(0);
                                let exp = ch.pos + ch.data.len();
                                commands.push(MsgQueueCommands::Add(exp, src, ch));
                                proof {
                                    assert(chunks@ =~= orig.skip(commands@.len() as int));
                                }
                            }
                        } else {
                            c.out_acked = k.len;
                            self.clients.insert(i, c);
                            proof {
                                assert(self.clients@ =~= old(self).clients@.update(
                                    i as int,
                                    self.clients@[i as int],
                                ));
                            }
                            commands.push(MsgQueueCommands::Ack(k));
                        }
                    },
                }
            },
            Message::Close(s) => {
                match self.find_client(&s) {
                    Some(i) => {
                        let _gone = self.clients.remove(i);
                    },
                    None => {},
                }
                commands.push(MsgQueueCommands::Closed(s.clone()));
                replies.push((src, Message::Close(s)));
            },
        }
        DispatchOutput { replies, commands }
    }
}

} // verus!
