//! The byte-stream cipher layer of the toy-order session protocol.
//!
//! A peer opens its stream with a cipher spec: a list of byte
//! operations, applied in order to every outbound byte and undone in
//! reverse order on every inbound byte. Position-dependent operations
//! use the byte's absolute position in its direction of the stream,
//! reduced modulo 256. A spec whose whole chain leaves a probe
//! unchanged is a no-op cipher and is refused by the caller.

use vstd::prelude::*;
use crate::codec::NEWLINE;

verus! {

/// One cipher operation of the wire spec; `End` only terminates the
/// spec and is never applied to data.
#[derive(Clone, Debug)]
pub enum CipherOp {
    End,
    Rev,
    XorN(u8),
    XorPos,
    AddN(u8),
    AddPos,
}

/// The bits of a byte in reverse order.
pub open spec fn spec_rev_bits(b: u8) -> u8 {
    ((b & 0x80) >> 7) | ((b & 0x40) >> 5) | ((b & 0x20) >> 3) | ((b & 0x10) >> 1) | ((b & 0x08)
        << 1) | ((b & 0x04) << 3) | ((b & 0x02) << 5) | ((b & 0x01) << 7)
}

/// What one operation does to a byte at stream position `pos` (already
/// reduced modulo 256). `End` leaves the byte alone; it is never asked.
pub open spec fn spec_proc_byte(op: CipherOp, b: u8, pos: u8) -> u8 {
    match op {
        CipherOp::End => b,
        CipherOp::Rev => spec_rev_bits(b),
        CipherOp::XorN(n) => b ^ n,
        CipherOp::XorPos => b ^ pos,
        CipherOp::AddN(n) => ((b + n) % 256) as u8,
        CipherOp::AddPos => ((b + pos) % 256) as u8,
    }
}

/// The inverse of [`spec_proc_byte`]: the xor and bit-reversal forms
/// are their own inverses, the additions subtract.
pub open spec fn spec_proc_byte_inverse(op: CipherOp, b: u8, pos: u8) -> u8 {
    match op {
        CipherOp::AddN(n) => ((b + 256 - n) % 256) as u8,
        CipherOp::AddPos => ((b + 256 - pos) % 256) as u8,
        _ => spec_proc_byte(op, b, pos),
    }
}

proof fn lemma_rev_bits_involutive(b: u8)
    ensures
        spec_rev_bits(spec_rev_bits(b)) == b,
{
    let r = spec_rev_bits(b);
    assert(((r & 0x80) >> 7) | ((r & 0x40) >> 5) | ((r & 0x20) >> 3) | ((r & 0x10) >> 1) | ((r
        & 0x08) << 1) | ((r & 0x04) << 3) | ((r & 0x02) << 5) | ((r & 0x01) << 7) == b)
        by (bit_vector)
        requires
            r == ((b & 0x80) >> 7) | ((b & 0x40) >> 5) | ((b & 0x20) >> 3) | ((b & 0x10) >> 1)
                | ((b & 0x08) << 1) | ((b & 0x04) << 3) | ((b & 0x02) << 5) | ((b & 0x01)
                << 7),
    ;
}

/// Undoing an operation recovers the byte it was applied to.
pub proof fn lemma_proc_byte_inverse(op: CipherOp, b: u8, pos: u8)
    ensures
        spec_proc_byte_inverse(op, spec_proc_byte(op, b, pos), pos) == b,
{
    match op {
        CipherOp::End => {},
        CipherOp::Rev => {
            lemma_rev_bits_involutive(b);
        },
        CipherOp::XorN(n) => {
            assert((b ^ n) ^ n == b) by (bit_vector);
        },
        CipherOp::XorPos => {
            assert((b ^ pos) ^ pos == b) by (bit_vector);
        },
        CipherOp::AddN(n) => {
            let c = ((b + n) % 256) as u8;
            if b + n < 256 {
                assert(c == b + n);
            } else {
                assert(c == b + n - 256);
            }
        },
        CipherOp::AddPos => {
            let c = ((b + pos) % 256) as u8;
            if b + pos < 256 {
                assert(c == b + pos);
            } else {
                assert(c == b + pos - 256);
            }
        },
    }
}

impl CipherOp {
    /// Applies the operation; `End` carries no transformation and is
    /// excluded.
    pub fn proc_byte(&self, b: u8, pos: usize) -> (r: u8)
        requires
            !(self matches CipherOp::End),
        ensures
            r == spec_proc_byte(*self, b, (pos % 256) as u8),
    {
        let p: u8 = (pos % 256) as u8;
        match self {
            CipherOp::End => b,
            CipherOp::Rev => {
                ((b & 0x80) >> 7) | ((b & 0x40) >> 5) | ((b & 0x20) >> 3) | ((b & 0x10) >> 1)
                    | ((b & 0x08) << 1) | ((b & 0x04) << 3) | ((b & 0x02) << 5) | ((b & 0x01)
                    << 7)
            },
            CipherOp::XorN(n) => b ^ *n,
            CipherOp::XorPos => b ^ p,
            CipherOp::AddN(n) => ((b as u16 + *n as u16) % 256) as u8,
            CipherOp::AddPos => ((b as u16 + p as u16) % 256) as u8,
        }
    }

    /// Undoes the operation, as [`spec_proc_byte_inverse`] says.
    pub fn proc_byte_inverse(&self, b: u8, pos: usize) -> (r: u8)
        requires
            !(self matches CipherOp::End),
        ensures
            r == spec_proc_byte_inverse(*self, b, (pos % 256) as u8),
    {
        let p: u8 = (pos % 256) as u8;
        match self {
            CipherOp::AddN(n) => ((b as u16 + 256 - *n as u16) % 256) as u8,
            CipherOp::AddPos => ((b as u16 + 256 - p as u16) % 256) as u8,
            _ => self.proc_byte(b, pos),
        }
    }
}

/// No `End` hides in an applied spec.
pub open spec fn ops_ok(ops: Seq<CipherOp>) -> bool {
    forall|i: int| 0 <= i < ops.len() ==> !((#[trigger] ops[i]) matches CipherOp::End)
}

/// The whole chain applied in order, encoding a byte.
pub open spec fn spec_chain(ops: Seq<CipherOp>, b: u8, pos: u8) -> u8
    decreases ops.len(),
{
    if ops.len() == 0 {
        b
    } else {
        spec_chain(ops.skip(1), spec_proc_byte(ops[0], b, pos), pos)
    }
}

/// The inverses applied in order (used with an already-reversed spec to
/// decode).
pub open spec fn spec_chain_inverse(ops: Seq<CipherOp>, b: u8, pos: u8) -> u8
    decreases ops.len(),
{
    if ops.len() == 0 {
        b
    } else {
        spec_chain_inverse(ops.skip(1), spec_proc_byte_inverse(ops[0], b, pos), pos)
    }
}

proof fn lemma_chain_snoc(ops: Seq<CipherOp>, b: u8, pos: u8)
    requires
        ops.len() > 0,
    ensures
        spec_chain(ops, b, pos) == spec_proc_byte(
            ops.last(),
            spec_chain(ops.drop_last(), b, pos),
            pos,
        ),
    decreases ops.len(),
{
    if ops.len() == 1 {
        let c = spec_proc_byte(ops[0], b, pos);
        assert(ops.skip(1) =~= Seq::<CipherOp>::empty());
        assert(ops.drop_last() =~= Seq::<CipherOp>::empty());
        assert(spec_chain(Seq::<CipherOp>::empty(), c, pos) == c);
        assert(spec_chain(Seq::<CipherOp>::empty(), b, pos) == b);
        assert(spec_chain(ops, b, pos) == c);
        assert(ops.last() == ops[0]);
    } else {
        let c = spec_proc_byte(ops[0], b, pos);
        lemma_chain_snoc(ops.skip(1), c, pos);
        assert(ops.skip(1).drop_last() =~= ops.drop_last().skip(1));
        assert(ops.skip(1).last() == ops.last());
        assert(ops.drop_last()[0] == ops[0]);
        assert(spec_chain(ops.drop_last(), b, pos) == spec_chain(
            ops.drop_last().skip(1),
            c,
            pos,
        ));
        assert(spec_chain(ops, b, pos) == spec_chain(ops.skip(1), c, pos));
    }
}

/// Decoding with the reversed spec undoes encoding with the spec: the
/// cipher layer's round trip, byte for byte.
pub proof fn lemma_chain_inverse(ops: Seq<CipherOp>, b: u8, pos: u8)
    ensures
        spec_chain_inverse(ops.reverse(), spec_chain(ops, b, pos), pos) == b,
    decreases ops.len(),
{
    if ops.len() > 0 {
        lemma_chain_snoc(ops, b, pos);
        let rev = ops.reverse();
        assert(rev[0] == ops.last());
        assert(rev.skip(1) =~= ops.drop_last().reverse());
        let mid = spec_chain(ops.drop_last(), b, pos);
        lemma_proc_byte_inverse(ops.last(), mid, pos);
        lemma_chain_inverse(ops.drop_last(), b, pos);
    }
}

/// Applies the whole spec to one byte at stream position `pos`.
pub fn apply_chain(ops: &Vec<CipherOp>, b: u8, pos: usize) -> (r: u8)
    requires
        ops_ok(ops@),
    ensures
        r == spec_chain(ops@, b, (pos % 256) as u8),
{
    let mut cur = b;
    let mut i: usize = 0;
    proof {
        assert(ops@.skip(0) =~= ops@);
    }
    while i < ops.len()
        invariant
            ops_ok(ops@),
            i <= ops@.len(),
            spec_chain(ops@, b, (pos % 256) as u8) == spec_chain(
                ops@.skip(i as int),
                cur,
                (pos % 256) as u8,
            ),
        decreases ops@.len() - i,
    {
        proof {
            assert(ops@.skip(i as int)[0] == ops@[i as int]);
            assert(ops@.skip(i as int).skip(1) =~= ops@.skip(i + 1));
        }
        cur = ops[i].proc_byte(cur, pos);
        i = i + 1;
    }
    cur
}

/// Undoes the whole (already reversed) spec on one byte.
pub fn apply_chain_inverse(ops: &Vec<CipherOp>, b: u8, pos: usize) -> (r: u8)
    requires
        ops_ok(ops@),
    ensures
        r == spec_chain_inverse(ops@, b, (pos % 256) as u8),
{
    let mut cur = b;
    let mut i: usize = 0;
    proof {
        assert(ops@.skip(0) =~= ops@);
    }
    while i < ops.len()
        invariant
            ops_ok(ops@),
            i <= ops@.len(),
            spec_chain_inverse(ops@, b, (pos % 256) as u8) == spec_chain_inverse(
                ops@.skip(i as int),
                cur,
                (pos % 256) as u8,
            ),
        decreases ops@.len() - i,
    {
        proof {
            assert(ops@.skip(i as int)[0] == ops@[i as int]);
            assert(ops@.skip(i as int).skip(1) =~= ops@.skip(i + 1));
        }
        cur = ops[i].proc_byte_inverse(cur, pos);
        i = i + 1;
    }
    cur
}

/// Reads cipher-spec bytes one operation at a time.
#[derive(Default, Debug)]
pub struct CipherSpec {}

/// What the head of the spec stream holds: a complete operation and how
/// many bytes it took, nothing yet, or garbage.
pub enum OpDecode {
    Op(CipherOp, usize),
    Pending,
    Invalid,
}

impl CipherSpec {
    /// Decodes the next operation: one tag byte, plus an operand byte
    /// for the xor-with and add-with forms. An unknown tag is invalid
    /// data; a truncated operand waits for more bytes.
    pub fn decode(&self, src: &[u8]) -> (r: OpDecode)
        ensures
            src@.len() == 0 ==> r matches OpDecode::Pending,
            src@.len() > 0 ==> match r {
                OpDecode::Op(op, n) => {
                    ||| (src@[0] == 0 && (op matches CipherOp::End) && n == 1)
                    ||| (src@[0] == 1 && (op matches CipherOp::Rev) && n == 1)
                    ||| (src@[0] == 2 && src@.len() >= 2 && (op matches CipherOp::XorN(v) && v
                        == src@[1]) && n == 2)
                    ||| (src@[0] == 3 && (op matches CipherOp::XorPos) && n == 1)
                    ||| (src@[0] == 4 && src@.len() >= 2 && (op matches CipherOp::AddN(v) && v
                        == src@[1]) && n == 2)
                    ||| (src@[0] == 5 && (op matches CipherOp::AddPos) && n == 1)
                },
                OpDecode::Pending => (src@[0] == 2 || src@[0] == 4) && src@.len() == 1,
                OpDecode::Invalid => src@[0] > 5,
            },
    {
        if src.len() == 0 {
            return OpDecode::Pending;
        }
        let tag = src[0];
        if tag == 0 {
            OpDecode::Op(CipherOp::End, 1)
        } else if tag == 1 {
            OpDecode::Op(CipherOp::Rev, 1)
        } else if tag == 3 {
            OpDecode::Op(CipherOp::XorPos, 1)
        } else if tag == 5 {
            OpDecode::Op(CipherOp::AddPos, 1)
        } else if tag == 2 || tag == 4 {
            if src.len() < 2 {
                return OpDecode::Pending;
            }
            if tag == 2 {
                OpDecode::Op(CipherOp::XorN(src[1]), 2)
            } else {
                OpDecode::Op(CipherOp::AddN(src[1]), 2)
            }
        } else {
            OpDecode::Invalid
        }
    }
}

/// The six probe bytes used to recognise a no-op cipher.
pub open spec fn noop_probe() -> Seq<u8> {
    seq!['a' as u8, 'b' as u8, 'c' as u8, '1' as u8, '2' as u8, '3' as u8]
}

/// Encodes the probe at positions 0 to 5 and reports whether the spec
/// left every byte unchanged; such a spec must be refused.
pub fn cipher_is_noop(ops: &Vec<CipherOp>) -> (r: bool)
    requires
        ops_ok(ops@),
    ensures
        r == forall|j: int|
            0 <= j < 6 ==> spec_chain(ops@, noop_probe()[j], j as u8) == noop_probe()[j],
{
    let mut j: usize = 0;
    while j < 6
        invariant
            j <= 6,
            ops_ok(ops@),
            forall|q: int|
                0 <= q < j ==> spec_chain(ops@, noop_probe()[q], q as u8) == noop_probe()[q],
        decreases 6 - j,
    {
        let b: u8 = if j == 0 {
            'a' as u8
        } else if j == 1 {
            'b' as u8
        } else if j == 2 {
            'c' as u8
        } else if j == 3 {
            '1' as u8
        } else if j == 4 {
            '2' as u8
        } else {
            '3' as u8
        };
        proof {
            assert(b == noop_probe()[j as int]);
            assert((j % 256) as u8 == j as u8);
        }
        if apply_chain(ops, b, j) != b {
            proof {
                assert(spec_chain(ops@, noop_probe()[j as int], j as u8) != noop_probe()[
                    j as int
                ]);
            }
            return false;
        }
        j = j + 1;
    }
    true
}

/// The framed line codec sitting on top of a cipher: `pos` counts the
/// stream bytes already en- or decoded, and `cipherspec` holds the
/// operations (already reversed for the decoding direction).
#[derive(Default)]
pub struct ToysList {
    pub pos: usize,
    pub cipherspec: Vec<CipherOp>,
}

impl ToysList {
    /// The decoded value of `src[j]` in this state.
    pub open spec fn decoded_at(self, src: Seq<u8>, j: int) -> u8 {
        spec_chain_inverse(self.cipherspec@, src[j], ((self.pos + j) % 256) as u8)
    }

    /// Decodes up to the first newline: `Some((n, line))` consumes `n`
    /// bytes whose decoded form is `line` plus the newline; `None` waits
    /// for more bytes. The caller drops the consumed prefix of its
    /// buffer.
    pub fn decode(&mut self, src: &[u8]) -> (r: Option<(usize, Vec<u8>)>)
        requires
            ops_ok(old(self).cipherspec@),
            old(self).pos + src@.len() <= usize::MAX,
        ensures
            final(self).cipherspec@ == old(self).cipherspec@,
            match r {
                Some((n, line)) => {
                    &&& 1 <= n <= src@.len()
                    &&& old(self).decoded_at(src@, n - 1) == NEWLINE
                    &&& line@.len() == n - 1
                    &&& forall|j: int|
                        0 <= j < n - 1 ==> #[trigger] line@[j] == old(self).decoded_at(
                            src@,
                            j,
                        ) && line@[j] != NEWLINE
                    &&& final(self).pos == old(self).pos + n
                },
                None => {
                    &&& forall|j: int|
                        0 <= j < src@.len() ==> old(self).decoded_at(src@, j) != NEWLINE
                    &&& final(self).pos == old(self).pos
                },
            },
    {
        let mut line: Vec<u8> = Vec::new();
        let mut j: usize = 0;
        while j < src.len()
            invariant
                ops_ok(self.cipherspec@),
                self == old(self),
                self.pos + src@.len() <= usize::MAX,
                j <= src@.len(),
                line@.len() == j,
                forall|q: int|
                    0 <= q < j ==> #[trigger] line@[q] == old(self).decoded_at(src@, q)
                        && line@[q] != NEWLINE,
            decreases src@.len() - j,
        {
            let b = apply_chain_inverse(&self.cipherspec, src[j], self.pos + j);
            proof {
                assert(b == old(self).decoded_at(src@, j as int));
            }
            if b == NEWLINE {
                self.pos = self.pos + j + 1;
                return Some((j + 1, line));
            }
            line.push(b);
            j = j + 1;
        }
        proof {
            assert forall|q: int|
                0 <= q < src@.len() implies old(self).decoded_at(src@, q) != NEWLINE by {
                assert(line@[q] == old(self).decoded_at(src@, q));
            }
        }
        None
    }

    /// Encodes `item` plus a line terminator, each byte at its stream
    /// position.
    pub fn encode(&mut self, item: &[u8]) -> (r: Vec<u8>)
        requires
            ops_ok(old(self).cipherspec@),
            old(self).pos + item@.len() + 1 <= usize::MAX,
        ensures
            final(self).cipherspec@ == old(self).cipherspec@,
            final(self).pos == old(self).pos + item@.len() + 1,
            r@.len() == item@.len() + 1,
            forall|j: int|
                0 <= j < item@.len() ==> #[trigger] r@[j] == spec_chain(
                    old(self).cipherspec@,
                    item@[j],
                    ((old(self).pos + j) % 256) as u8,
                ),
            r@.last() == spec_chain(
                old(self).cipherspec@,
                NEWLINE,
                ((old(self).pos + item@.len()) % 256) as u8,
            ),
    {
        let mut out: Vec<u8> = Vec::new();
        let mut j: usize = 0;
        while j < item.len()
            invariant
                ops_ok(self.cipherspec@),
                self == old(self),
                self.pos + item@.len() + 1 <= usize::MAX,
                j <= item@.len(),
                out@.len() == j,
                forall|q: int|
                    0 <= q < j ==> #[trigger] out@[q] == spec_chain(
                        old(self).cipherspec@,
                        item@[q],
                        ((old(self).pos + q) % 256) as u8,
                    ),
            decreases item@.len() - j,
        {
            let b = apply_chain(&self.cipherspec, item[j], self.pos + j);
            out.push(b);
            j = j + 1;
        }
        let last = apply_chain(&self.cipherspec, NEWLINE, self.pos + item.len());
        out.push(last);
        self.pos = self.pos + item.len() + 1;
        out
    }
}

} // verus!
