//! Per-session stream state and the line-reversal engine.
//!
//! A session holds everything the peer has sent (`in_buf`) and everything
//! produced for it (`out_buf`). Both streams only ever grow. The engine
//! scans the input for complete lines, reverses each line's content and
//! appends it, terminator kept, to the output: [`transform`] is the
//! mathematical statement of that pass, and a well-formed session's
//! output is always `transform` of the consumed input prefix.

use vstd::prelude::*;
use vstd::seq_lib::*;
use crate::codec::copy_bytes;
use crate::codec::Data;
use crate::codec::Session;
use crate::codec::NEWLINE;

verus! {

/// One pass of the reversal engine, carrying the unterminated line read
/// so far in `cur`: every complete line comes out reversed with its
/// terminator, and an incomplete trailing line yields nothing yet.
pub open spec fn transform_from(inp: Seq<u8>, cur: Seq<u8>) -> Seq<u8>
    decreases inp.len(),
{
    if inp.len() == 0 {
        Seq::empty()
    } else if inp[0] == NEWLINE {
        cur.reverse() + seq![NEWLINE] + transform_from(inp.skip(1), Seq::empty())
    } else {
        transform_from(inp.skip(1), cur + seq![inp[0]])
    }
}

/// What the output stream holds once every complete line of `inp` has
/// been reversed.
pub open spec fn transform(inp: Seq<u8>) -> Seq<u8> {
    transform_from(inp, Seq::empty())
}

pub proof fn lemma_transform_no_newline(s: Seq<u8>, cur: Seq<u8>)
    requires
        forall|i: int| 0 <= i < s.len() ==> #[trigger] s[i] != NEWLINE,
    ensures
        transform_from(s, cur) == Seq::<u8>::empty(),
    decreases s.len(),
{
    if s.len() > 0 {
        assert(forall|i: int| 0 <= i < s.len() - 1 ==> #[trigger] s.skip(1)[i] == s[i + 1]);
        lemma_transform_no_newline(s.skip(1), cur + seq![s[0]]);
    }
}

/// The engine works line by line: a terminated prefix contributes its
/// own transform, independently of what follows.
pub proof fn lemma_transform_append(a: Seq<u8>, b: Seq<u8>, cur: Seq<u8>)
    requires
        a.len() > 0,
        a.last() == NEWLINE,
    ensures
        transform_from(a + b, cur) == transform_from(a, cur) + transform_from(b, Seq::empty()),
    decreases a.len(),
{
    if a.len() == 1 {
        assert(a[0] == NEWLINE);
        assert((a + b).skip(1) =~= b);
        assert(a.skip(1) =~= Seq::<u8>::empty());
        assert(transform_from(a, cur) =~= cur.reverse() + seq![NEWLINE]);
        assert((cur.reverse() + seq![NEWLINE]) + transform_from(b, Seq::empty()) =~= cur.reverse()
            + seq![NEWLINE] + transform_from(b, Seq::empty()));
    } else {
        let a1 = a.skip(1);
        assert(a1.last() == a.last());
        assert((a + b).skip(1) =~= a1 + b);
        if a[0] == NEWLINE {
            lemma_transform_append(a1, b, Seq::empty());
            assert((cur.reverse() + seq![NEWLINE]) + (transform_from(a1, Seq::empty())
                + transform_from(b, Seq::empty())) =~= (cur.reverse() + seq![NEWLINE]
                + transform_from(a1, Seq::empty())) + transform_from(b, Seq::empty()));
        } else {
            lemma_transform_append(a1, b, cur + seq![a[0]]);
        }
    }
}

/// One complete line at the front comes out as its reversed content plus
/// the terminator.
pub proof fn lemma_transform_line(line: Seq<u8>, rest: Seq<u8>, cur: Seq<u8>)
    requires
        forall|i: int| 0 <= i < line.len() ==> #[trigger] line[i] != NEWLINE,
    ensures
        transform_from(line + seq![NEWLINE] + rest, cur) == (cur + line).reverse()
            + seq![NEWLINE] + transform_from(rest, Seq::empty()),
    decreases line.len(),
{
    if line.len() == 0 {
        assert(line + seq![NEWLINE] + rest =~= seq![NEWLINE] + rest);
        assert((seq![NEWLINE] + rest)[0] == NEWLINE);
        assert((seq![NEWLINE] + rest).skip(1) =~= rest);
        assert(cur + line =~= cur);
    } else {
        let l1 = line.skip(1);
        assert(forall|i: int| 0 <= i < l1.len() ==> #[trigger] l1[i] == line[i + 1]);
        assert((line + seq![NEWLINE] + rest)[0] == line[0]);
        assert((line + seq![NEWLINE] + rest).skip(1) =~= l1 + seq![NEWLINE] + rest);
        lemma_transform_line(l1, rest, cur + seq![line[0]]);
        assert((cur + seq![line[0]]) + l1 =~= cur + line);
    }
}

/// Absorbing nothing changes nothing: the output stream is a function
/// of the input stream alone, so an empty append leaves it in place,
/// however often it is repeated.
pub proof fn lemma_absorb_nothing(inp: Seq<u8>)
    ensures
        transform(inp + Seq::<u8>::empty()) == transform(inp),
{
    assert(inp + Seq::<u8>::empty() =~= inp);
}

/// Splitting the input at any line boundary splits the output.
pub proof fn lemma_transform_decompose(inp: Seq<u8>, k: int)
    requires
        0 <= k <= inp.len(),
        k == 0 || inp[k - 1] == NEWLINE,
    ensures
        transform(inp) == transform(inp.take(k)) + transform_from(inp.skip(k), Seq::empty()),
{
    if k == 0 {
        assert(inp.take(0) =~= Seq::<u8>::empty());
        assert(inp.skip(0) =~= inp);
        assert(Seq::<u8>::empty() + transform_from(inp, Seq::empty()) =~= transform_from(
            inp,
            Seq::empty(),
        ));
    } else {
        assert(inp.take(k) + inp.skip(k) =~= inp);
        assert(inp.take(k).last() == inp[k - 1]);
        lemma_transform_append(inp.take(k), inp.skip(k), Seq::empty());
    }
}

/// One session's stream state: the peer's address as last seen, the
/// received and produced streams, and how much output the peer has
/// confirmed.
pub struct Client<A> {
    pub session: Session,
    pub src: A,
    pub in_buf: Vec<u8>,
    pub out_buf: Vec<u8>,
    pub out_acked: usize,
}

impl<A> Client<A> {
    /// The reversal invariant: the output is the transform of the
    /// consumed input prefix, the consumed prefix ends at a line
    /// boundary, and the peer never confirmed more than exists.
    pub open spec fn wf(self) -> bool {
        &&& self.out_buf@.len() <= self.in_buf@.len()
        &&& self.out_buf@ == transform(self.in_buf@.take(self.out_buf@.len() as int))
        &&& (self.out_buf@.len() == 0 || self.in_buf@[self.out_buf@.len() - 1] == NEWLINE)
        &&& self.out_acked <= self.out_buf@.len()
    }

    /// No complete line is waiting: every newline has been consumed.
    pub open spec fn synced(self) -> bool {
        forall|i: int|
            self.out_buf@.len() <= i < self.in_buf@.len() ==> #[trigger] self.in_buf@[i]
                != NEWLINE
    }

    /// A freshly connected session: empty streams, nothing confirmed.
    pub fn new(session: Session, src: A) -> (r: Client<A>)
        ensures
            r.session@ == session@,
            r.src == src,
            r.in_buf@ == Seq::<u8>::empty(),
            r.out_buf@ == Seq::<u8>::empty(),
            r.out_acked == 0,
            r.wf(),
            r.synced(),
    {
        let r = Client { session, src, in_buf: Vec::new(), out_buf: Vec::new(), out_acked: 0 };
        proof {
            assert(r.in_buf@.take(0) =~= Seq::<u8>::empty());
        }
        r
    }
}

fn find_newline_from(v: &Vec<u8>, from: usize) -> (r: usize)
    requires
        from <= v@.len(),
    ensures
        from <= r <= v@.len(),
        r < v@.len() ==> v@[r as int] == NEWLINE,
        forall|i: int| from <= i < r ==> v@[i] != NEWLINE,
    decreases v@.len() - from,
{
    let mut i = from;
    while i < v.len()
        invariant
            from <= i <= v@.len(),
            forall|j: int| from <= j < i ==> v@[j] != NEWLINE,
        decreases v@.len() - i,
    {
        if v[i] == NEWLINE {
            return i;
        }
        i = i + 1;
    }
    i
}

impl<A> Client<A> {
    /// The reversal pass: consumes every complete line now waiting in
    /// the input and appends each line's reversed content, terminator
    /// kept, to the output. Everything else is left untouched, so the
    /// output afterwards is exactly the transform of the whole input.
    pub fn sync_buffers(&mut self)
        requires
            old(self).wf(),
        ensures
            final(self).wf(),
            final(self).synced(),
            final(self).session == old(self).session,
            final(self).src == old(self).src,
            final(self).in_buf@ == old(self).in_buf@,
            final(self).out_acked == old(self).out_acked,
            final(self).out_buf@ == transform(final(self).in_buf@),
            old(self).out_buf@.is_prefix_of(final(self).out_buf@),
    {
        loop
            invariant
                self.wf(),
                self.session == old(self).session,
                self.src == old(self).src,
                self.in_buf@ == old(self).in_buf@,
                self.out_acked == old(self).out_acked,
                old(self).out_buf@.is_prefix_of(self.out_buf@),
            ensures
                self.wf(),
                self.synced(),
                self.session == old(self).session,
                self.src == old(self).src,
                self.in_buf@ == old(self).in_buf@,
                self.out_acked == old(self).out_acked,
                old(self).out_buf@.is_prefix_of(self.out_buf@),
            decreases self.in_buf@.len() - self.out_buf@.len(),
        {
            let start = self.out_buf.len();
            let j = find_newline_from(&self.in_buf, start);
            if j == self.in_buf.len() {
                break;
            }
            let ghost pre_out = self.out_buf@;
            let ghost inb = self.in_buf@;
            let mut k = j;
            while k > start
                invariant
                    start <= k <= j,
                    j < self.in_buf@.len(),
                    self.in_buf@ == inb,
                    self.session == old(self).session,
                    self.src == old(self).src,
                    self.out_acked == old(self).out_acked,
                    self.out_buf@ == pre_out + inb.subrange(k as int, j as int).reverse(),
                decreases k,
            {
                k = k - 1;
                let b = self.in_buf[k];
                self.out_buf.push(b);
                proof {
                    let sub = inb.subrange(k as int, j as int);
                    let sub1 = inb.subrange(k + 1, j as int);
                    assert(sub.reverse() =~= sub1.reverse() + seq![inb[k as int]]);
                    assert(pre_out + sub1.reverse() + seq![inb[k as int]] =~= pre_out
                        + sub.reverse());
                }
            }
            self.out_buf.push(NEWLINE);
            proof {
                let line = inb.subrange(start as int, j as int);
                assert(inb.subrange(j as int, j as int).reverse() =~= Seq::<u8>::empty());
                assert(pre_out + Seq::<u8>::empty() =~= pre_out);
                assert(self.out_buf@ =~= pre_out + line.reverse() + seq![NEWLINE]);
                assert(inb.take(j + 1) =~= inb.take(start as int) + (line + seq![NEWLINE]));
                lemma_transform_line(line, Seq::<u8>::empty(), Seq::<u8>::empty());
                assert(Seq::<u8>::empty() + line =~= line);
                assert(line + seq![NEWLINE] + Seq::<u8>::empty() =~= line + seq![NEWLINE]);
                if start > 0 {
                    assert(inb.take(start as int).last() == inb[start - 1]);
                    lemma_transform_append(
                        inb.take(start as int),
                        line + seq![NEWLINE],
                        Seq::<u8>::empty(),
                    );
                } else {
                    assert(inb.take(0) =~= Seq::<u8>::empty());
                    assert(inb.take(0) + (line + seq![NEWLINE]) =~= line + seq![NEWLINE]);
                }
                assert(transform(inb.take(j + 1)) == pre_out + line.reverse() + seq![NEWLINE]);
                assert(inb[j as int] == NEWLINE);
            }
        }
        proof {
            let k = self.out_buf@.len() as int;
            lemma_transform_decompose(self.in_buf@, k);
            lemma_transform_no_newline(self.in_buf@.skip(k), Seq::<u8>::empty());
            assert(self.out_buf@ + Seq::<u8>::empty() =~= self.out_buf@);
        }
    }

    /// Appends `bytes` to the input stream, then runs the reversal pass.
    /// Repeating a call with empty `bytes` never changes the output: the
    /// output is a function of the input stream alone.
    pub fn absorb(&mut self, bytes: &[u8])
        requires
            old(self).wf(),
        ensures
            final(self).wf(),
            final(self).synced(),
            final(self).session == old(self).session,
            final(self).src == old(self).src,
            final(self).in_buf@ == old(self).in_buf@ + bytes@,
            final(self).out_acked == old(self).out_acked,
            final(self).out_buf@ == transform(old(self).in_buf@ + bytes@),
            old(self).out_buf@.is_prefix_of(final(self).out_buf@),
    {
        let ghost k = self.out_buf@.len() as int;
        self.in_buf.extend_from_slice(bytes);
        proof {
            assert(self.in_buf@ =~= old(self).in_buf@ + bytes@);
            assert(self.in_buf@.take(k) =~= old(self).in_buf@.take(k));
        }
        self.sync_buffers();
    }
}

/// Where chunk `i` of a re-offer starting at `from` ends: 768 bytes on,
/// or at the end of the output stream.
pub open spec fn chunk_end(from: int, i: int, len: int) -> int {
    if from + 768 * i + 768 <= len {
        from + 768 * i + 768
    } else {
        len
    }
}

impl<A> Client<A> {
    /// Cuts `out_buf[from..]` into `data` chunks of at most 768 bytes,
    /// each tagged with its absolute position in the output stream.
    /// The bound keeps an encoded chunk inside the 1000-byte datagram
    /// limit for payloads that escape lightly.
    pub fn emit_chunks(&self, from: usize) -> (r: Vec<Data>)
        requires
            from <= self.out_buf@.len(),
        ensures
            r@.len() == (self.out_buf@.len() - from + 767) / 768,
            forall|i: int|
                0 <= i < r@.len() ==> {
                    &&& (#[trigger] r@[i]).session@ == self.session@
                    &&& r@[i].pos == from + 768 * i
                    &&& r@[i].data@ == self.out_buf@.subrange(
                        from + 768 * i,
                        chunk_end(from as int, i, self.out_buf@.len() as int),
                    )
                },
    {
        let total = self.out_buf.len();
        let d = total - from;
        let n = d / 768 + if d % 768 != 0 {
            1
        } else {
            0
        };
        proof {
            assert(n == (d + 767) / 768);
        }
        let mut r: Vec<Data> = Vec::new();
        let mut c: usize = 0;
        let mut pos = from;
        while c < n
            invariant
                c <= n,
                n == (total - from + 767) / 768,
                from <= total <= self.out_buf@.len(),
                total == self.out_buf@.len(),
                r@.len() == c,
                c < n ==> pos == from + 768 * c,
                c == n ==> pos == total,
                pos <= total,
                forall|i: int|
                    0 <= i < c ==> {
                        &&& (#[trigger] r@[i]).session@ == self.session@
                        &&& r@[i].pos == from + 768 * i
                        &&& r@[i].data@ == self.out_buf@.subrange(
                            from + 768 * i,
                            chunk_end(from as int, i, self.out_buf@.len() as int),
                        )
                    },
            decreases n - c,
        {
            let end = if total - pos > 768 {
                pos + 768
            } else {
                total
            };
            proof {
                assert(total - from == 768 * ((total - from + 767) / 768) - 767 + (total - from
                    + 767) % 768 - 1 + 1);
                assert(end == chunk_end(from as int, c as int, total as int));
            }
            let chunk = copy_bytes(
                vstd::slice::slice_subrange(self.out_buf.as_slice(), pos, end),
            );
            r.push(Data { session: self.session.clone(), pos, data: chunk });
            pos = end;
            c = c + 1;
        }
        r
    }

    /// Runs the reversal pass, then re-offers the whole output tail from
    /// `from` on as chunks.
    pub fn send(&mut self, from: usize) -> (r: Vec<Data>)
        requires
            old(self).wf(),
            from <= old(self).out_buf@.len(),
        ensures
            final(self).wf(),
            final(self).synced(),
            final(self).session == old(self).session,
            final(self).src == old(self).src,
            final(self).in_buf@ == old(self).in_buf@,
            final(self).out_acked == old(self).out_acked,
            final(self).out_buf@ == transform(old(self).in_buf@),
            old(self).out_buf@.is_prefix_of(final(self).out_buf@),
            r@.len() == (final(self).out_buf@.len() - from + 767) / 768,
            forall|i: int|
                0 <= i < r@.len() ==> {
                    &&& (#[trigger] r@[i]).session@ == final(self).session@
                    &&& r@[i].pos == from + 768 * i
                    &&& r@[i].data@ == final(self).out_buf@.subrange(
                        from + 768 * i,
                        chunk_end(from as int, i, final(self).out_buf@.len() as int),
                    )
                },
    {
        self.sync_buffers();
        self.emit_chunks(from)
    }
}

} // verus!
