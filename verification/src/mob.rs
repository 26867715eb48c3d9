//! Address rewriting of the chat-relay man in the middle.
//!
//! Each chat line is split into space-inclusive pieces; a piece that is
//! exactly one coin address followed by a space or the line terminator
//! is replaced by the attacker's address, terminator kept. An address
//! is a `7` followed by 24 to 35 more letters or digits; anything glued
//! to it disqualifies the piece.

use vstd::prelude::*;
use crate::codec::NEWLINE;

verus! {

pub const SPACE: u8 = 32;

pub open spec fn is_alnum(b: u8) -> bool {
    (48 <= b && b <= 57) || (65 <= b && b <= 90) || (97 <= b && b <= 122)
}

/// A coin address: 25 to 36 alphanumeric bytes starting with `7`.
pub open spec fn is_boguscoin(t: Seq<u8>) -> bool {
    &&& 25 <= t.len() <= 36
    &&& t[0] == '7' as u8
    &&& forall|i: int| 0 <= i < t.len() ==> is_alnum(#[trigger] t[i])
}

/// The address every recognised one is replaced with.
pub open spec fn tony_addr() -> Seq<u8> {
    seq![
        '7' as u8,
        'Y' as u8,
        'W' as u8,
        'H' as u8,
        'M' as u8,
        'f' as u8,
        'k' as u8,
        '9' as u8,
        'J' as u8,
        'Z' as u8,
        'e' as u8,
        '0' as u8,
        'L' as u8,
        'M' as u8,
        '0' as u8,
        'g' as u8,
        '1' as u8,
        'Z' as u8,
        'a' as u8,
        'u' as u8,
        'H' as u8,
        'u' as u8,
        'i' as u8,
        'S' as u8,
        'x' as u8,
        'h' as u8,
        'I' as u8,
    ]
}

/// What one space-inclusive piece becomes.
pub open spec fn tamper_seg(seg: Seq<u8>) -> Seq<u8> {
    if seg.len() > 0 && (seg.last() == SPACE || seg.last() == NEWLINE) && is_boguscoin(
        seg.drop_last(),
    ) {
        tony_addr() + seq![seg.last()]
    } else {
        seg
    }
}

/// The whole line, piece by piece, carrying the unfinished piece in
/// `seg`.
pub open spec fn tamper_from(s: Seq<u8>, seg: Seq<u8>) -> Seq<u8>
    decreases s.len(),
{
    if s.len() == 0 {
        tamper_seg(seg)
    } else if s[0] == SPACE {
        tamper_seg(seg + seq![SPACE]) + tamper_from(s.skip(1), Seq::empty())
    } else {
        tamper_from(s.skip(1), seg + seq![s[0]])
    }
}

/// The rewritten line.
pub open spec fn spec_tamper(s: Seq<u8>) -> Seq<u8> {
    tamper_from(s, Seq::empty())
}

/// Decides [`is_boguscoin`].
pub fn is_boguscoin_bytes(t: &[u8]) -> (r: bool)
    ensures
        r == is_boguscoin(t@),
{
    if t.len() < 25 || t.len() > 36 {
        return false;
    }
    if t[0] != '7' as u8 {
        return false;
    }
    let mut i: usize = 0;
    while i < t.len()
        invariant
            i <= t@.len(),
            forall|j: int| 0 <= j < i ==> is_alnum(#[trigger] t@[j]),
        decreases t@.len() - i,
    {
        let b = t[i];
        if !((48 <= b && b <= 57) || (65 <= b && b <= 90) || (97 <= b && b <= 122)) {
            return false;
        }
        i = i + 1;
    }
    true
}

fn tony_bytes() -> (r: Vec<u8>)
    ensures
        r@ == tony_addr(),
{
    let mut out: Vec<u8> = Vec::new();
    out.push('7' as u8);
    out.push('Y' as u8);
    out.push('W' as u8);
    out.push('H' as u8);
    out.push('M' as u8);
    out.push('f' as u8);
    out.push('k' as u8);
    out.push('9' as u8);
    out.push('J' as u8);
    out.push('Z' as u8);
    out.push('e' as u8);
    out.push('0' as u8);
    out.push('L' as u8);
    out.push('M' as u8);
    out.push('0' as u8);
    out.push('g' as u8);
    out.push('1' as u8);
    out.push('Z' as u8);
    out.push('a' as u8);
    out.push('u' as u8);
    out.push('H' as u8);
    out.push('u' as u8);
    out.push('i' as u8);
    out.push('S' as u8);
    out.push('x' as u8);
    out.push('h' as u8);
    out.push('I' as u8);
    proof {
        assert(out@ =~= tony_addr());
    }
    out
}

fn emit_segment(out: &mut Vec<u8>, seg: &Vec<u8>)
    ensures
        final(out)@ == old(out)@ + tamper_seg(seg@),
{
    let n = seg.len();
    let replace = if n > 0 {
        let last = seg[n - 1];
        if last == SPACE || last == NEWLINE {
            let body = vstd::slice::slice_subrange(seg.as_slice(), 0, n - 1);
            proof {
                assert(body@ =~= seg@.drop_last());
            }
            is_boguscoin_bytes(body)
        } else {
            false
        }
    } else {
        false
    };
    if replace {
        let tony = tony_bytes();
        out.extend_from_slice(tony.as_slice());
        out.push(seg[n - 1]);
        proof {
            assert(out@ =~= old(out)@ + (tony_addr() + seq![seg@.last()]));
        }
    } else {
        out.extend_from_slice(seg.as_slice());
        proof {
            assert(out@ =~= old(out)@ + seg@);
        }
    }
}

/// Rewrites one chat line, as [`spec_tamper`] says: every free-standing
/// coin address is replaced, everything else passes through unchanged.
pub fn tamper_msg(msg: &[u8]) -> (r: Vec<u8>)
    ensures
        r@ == spec_tamper(msg@),
{
    let mut out: Vec<u8> = Vec::new();
    let mut seg: Vec<u8> = Vec::new();
    let mut i: usize = 0;
    proof {
        assert(msg@.skip(0) =~= msg@);
        assert(Seq::<u8>::empty() + tamper_from(msg@, Seq::<u8>::empty()) =~= tamper_from(
            msg@,
            Seq::<u8>::empty(),
        ));
    }
    while i < msg.len()
        invariant
            i <= msg@.len(),
            spec_tamper(msg@) == out@ + tamper_from(msg@.skip(i as int), seg@),
        decreases msg@.len() - i,
    {
        let b = msg[i];
        proof {
            assert(msg@.skip(i as int)[0] == b);
            assert(msg@.skip(i as int).skip(1) =~= msg@.skip(i + 1));
        }
        let ghost pre_out = out@;
        let ghost pre_seg = seg@;
        if b == SPACE {
            seg.push(SPACE);
            proof {
                assert(seg@ =~= pre_seg + seq![SPACE]);
            }
            emit_segment(&mut out, &seg);
            seg.clear();
            proof {
                assert((pre_out + tamper_seg(pre_seg + seq![SPACE])) + tamper_from(
                    msg@.skip(i + 1),
                    Seq::<u8>::empty(),
                ) =~= pre_out + (tamper_seg(pre_seg + seq![SPACE]) + tamper_from(
                    msg@.skip(i + 1),
                    Seq::<u8>::empty(),
                )));
            }
        } else {
            seg.push(b);
            proof {
                assert(seg@ =~= pre_seg + seq![b]);
            }
        }
        i = i + 1;
    }
    proof {
        assert(msg@.skip(msg@.len() as int) =~= Seq::<u8>::empty());
    }
    emit_segment(&mut out, &seg);
    out
}

} // verus!
