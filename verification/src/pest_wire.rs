//! The wire form of outbound pest-control messages.
//!
//! A frame is one tag byte, the big-endian total frame length, the
//! message's own fields (strings carry a big-endian length prefix), and
//! a final checksum byte chosen so that the whole frame's byte sum
//! vanishes modulo 256 ([`lemma_encode_checksum`]). Only the five kinds
//! the service ever sends are encodable.

use vstd::prelude::*;
use vstd::arithmetic::div_mod::lemma_add_mod_noop;
use vstd::string::StringSliceAdditionalSpecFns;
use crate::codec::copy_bytes;
use crate::pest_msg::Msg;
use crate::pest_msg::action_code;
use crate::pest_msg::is_error_msg;
use crate::pest_msg::sum_bytes;
use crate::pest_msg::validated_view;
use crate::pest_parse::Parse;
use crate::pest_parse::SpecParse;
use crate::pest_parse::spec_parse;
use crate::speed::be32_rep;
use crate::speed::push_be32;

verus! {

/// A length-prefixed string field.
pub open spec fn enc_string_rep(s: Seq<u8>) -> Seq<u8> {
    be32_rep(s.len() as u32) + s
}

/// The byte that makes a frame's sum vanish modulo 256.
pub open spec fn checksum_of(s: Seq<u8>) -> u8 {
    ((256 - sum_bytes(s) % 256) % 256) as u8
}

/// The field bytes of each sendable message kind.
pub open spec fn spec_msg_content(m: Msg) -> Seq<u8> {
    match m {
        Msg::Hello { protocol, version } => enc_string_rep(protocol@) + be32_rep(version),
        Msg::Error { message } => enc_string_rep(message@),
        Msg::DialAuthority { site } => be32_rep(site),
        Msg::CreatePolicy { species, action } => enc_string_rep(species@) + seq![
            action_code(action),
        ],
        Msg::DeletePolicy { policy } => be32_rep(policy),
        _ => Seq::empty(),
    }
}

pub open spec fn spec_msg_tag(m: Msg) -> u8 {
    match m {
        Msg::Hello { .. } => 0x50,
        Msg::Error { .. } => 0x51,
        Msg::DialAuthority { .. } => 0x53,
        Msg::CreatePolicy { .. } => 0x55,
        Msg::DeletePolicy { .. } => 0x56,
        _ => 0,
    }
}

/// The whole frame: tag, length, fields, checksum.
pub open spec fn spec_encode_msg(m: Msg) -> Seq<u8> {
    let content = spec_msg_content(m);
    let head = seq![spec_msg_tag(m)] + be32_rep((content.len() + 6) as u32) + content;
    head + seq![checksum_of(head)]
}

/// Whether a message is one of the kinds the service sends, with
/// fields short enough for the length word.
pub open spec fn encodable(m: Msg) -> bool {
    match m {
        Msg::Hello { protocol, version: _ } => protocol@.len() <= 0xffff0000,
        Msg::Error { message } => message@.len() <= 0xffff0000,
        Msg::DialAuthority { .. } => true,
        Msg::CreatePolicy { species, action: _ } => species@.len() <= 0xffff0000,
        Msg::DeletePolicy { .. } => true,
        _ => false,
    }
}

fn sum_of(bytes: &[u8]) -> (r: u64)
    requires
        bytes@.len() <= u32::MAX,
    ensures
        r == sum_bytes(bytes@),
{
    let mut sum: u64 = 0;
    let mut i: usize = 0;
    while i < bytes.len()
        invariant
            i <= bytes@.len(),
            bytes@.len() <= u32::MAX,
            sum == sum_bytes(bytes@.take(i as int)),
            sum <= 255 * i,
        decreases bytes@.len() - i,
    {
        proof {
            assert(bytes@.take(i + 1).drop_last() =~= bytes@.take(i as int));
            assert(bytes@.take(i + 1).last() == bytes@[i as int]);
        }
        sum = sum + bytes[i] as u64;
        i = i + 1;
    }
    proof {
        assert(bytes@.take(bytes@.len() as int) =~= bytes@);
    }
    sum
}

/// Computes [`checksum_of`] for a frame head.
pub fn enc_checksum(m: &[u8]) -> (r: u8)
    requires
        m@.len() <= u32::MAX,
    ensures
        r == checksum_of(m@),
{
    let sum = sum_of(m);
    proof {
        lemma_sum_bytes_nonneg(m@);
    }
    ((256 - sum % 256) % 256) as u8
}

proof fn lemma_sum_bytes_nonneg(s: Seq<u8>)
    ensures
        sum_bytes(s) >= 0,
    decreases s.len(),
{
    if s.len() > 0 {
        lemma_sum_bytes_nonneg(s.drop_last());
    }
}

/// Appends a length-prefixed string field.
pub fn enc_string(out: &mut Vec<u8>, s: &[u8])
    requires
        s@.len() <= u32::MAX,
    ensures
        final(out)@ == old(out)@ + enc_string_rep(s@),
{
    push_be32(out, s.len() as u32);
    out.extend_from_slice(s);
    proof {
        assert(out@ =~= old(out)@ + enc_string_rep(s@));
    }
}

/// The checksum byte closes the frame: the finished frame's byte sum
/// vanishes modulo 256, which is exactly what the receiver checks.
pub proof fn lemma_checksum_closes(s: Seq<u8>)
    ensures
        sum_bytes(s + seq![checksum_of(s)]) % 256 == 0,
{
    lemma_sum_bytes_nonneg(s);
    let c = checksum_of(s);
    let t = s + seq![c];
    assert(t.drop_last() =~= s);
    assert(t.last() == c);
    assert(sum_bytes(t) == sum_bytes(s) + c);
    lemma_add_mod_noop(sum_bytes(s), c as int, 256);
}

/// Every encoded frame passes the receiver's checksum check.
pub proof fn lemma_encode_checksum(m: Msg)
    ensures
        sum_bytes(spec_encode_msg(m)) % 256 == 0,
{
    let content = spec_msg_content(m);
    let head = seq![spec_msg_tag(m)] + be32_rep((content.len() + 6) as u32) + content;
    lemma_checksum_closes(head);
}

/// Encodes the outbound message kinds.
#[derive(Debug)]
pub struct MsgCodec;

impl MsgCodec {
    /// Spells one sendable message as a frame, exactly as
    /// [`spec_encode_msg`] lays it out.
    pub fn encode(&self, item: &Msg) -> (r: Vec<u8>)
        requires
            encodable(*item),
        ensures
            r@ == spec_encode_msg(*item),
    {
        let mut content: Vec<u8> = Vec::new();
        match item {
            Msg::Hello { protocol, version } => {
                enc_string(&mut content, protocol.as_slice());
                push_be32(&mut content, *version);
                proof {
                    assert(content@ =~= spec_msg_content(*item));
                }
            },
            Msg::Error { message } => {
                enc_string(&mut content, message.as_slice());
                proof {
                    assert(content@ =~= spec_msg_content(*item));
                }
            },
            Msg::DialAuthority { site } => {
                push_be32(&mut content, *site);
                proof {
                    assert(content@ =~= spec_msg_content(*item));
                }
            },
            Msg::CreatePolicy { species, action } => {
                enc_string(&mut content, species.as_slice());
                content.push(action.code());
                proof {
                    assert(content@ =~= spec_msg_content(*item));
                }
            },
            _ => {
                match item {
                    Msg::DeletePolicy { policy } => {
                        push_be32(&mut content, *policy);
                    },
                    _ => {},
                }
                proof {
                    assert(content@ =~= spec_msg_content(*item));
                }
            },
        }
        let mut msg: Vec<u8> = Vec::new();
        msg.push(self.tag(item));
        push_be32(&mut msg, (content.len() + 6) as u32);
        msg.extend_from_slice(content.as_slice());
        proof {
            assert(msg@ =~= seq![spec_msg_tag(*item)] + be32_rep(
                (content@.len() + 6) as u32,
            ) + content@);
        }
        let c = enc_checksum(msg.as_slice());
        msg.push(c);
        proof {
            assert(msg@ =~= spec_encode_msg(*item));
        }
        msg
    }

    /// Reads the head of the buffered stream: a parsed message and how
    /// many bytes to drop, nothing while a frame is incomplete, or an
    /// error message (consuming nothing) when the bytes are malformed.
    pub fn decode(&self, src: &[u8]) -> (r: (usize, Option<Msg>))
        requires
            src@.len() <= u32::MAX,
        ensures
            match spec_parse(src@) {
                SpecParse::SDone(n, length, v) => r.0 == n && (r.1 matches Some(m) && m@
                    == validated_view(v, length, src@.take(n))),
                SpecParse::SPending => r.0 == 0 && r.1 is None,
                SpecParse::SBad => r.0 == 0 && (r.1 matches Some(m) && is_error_msg(
                    m,
                    "unrecognized message".spec_bytes(),
                )),
            },
    {
        match crate::pest_parse::msg(src) {
            Parse::Done(n, m) => (n, Some(m)),
            Parse::Pending => (0, None),
            Parse::Bad => (0, Some(Msg::err("unrecognized message".as_bytes()))),
        }
    }

    fn tag(&self, item: &Msg) -> (r: u8)
        ensures
            r == spec_msg_tag(*item),
    {
        match item {
            Msg::Hello { .. } => 0x50,
            Msg::Error { .. } => 0x51,
            Msg::DialAuthority { .. } => 0x53,
            Msg::CreatePolicy { .. } => 0x55,
            Msg::DeletePolicy { .. } => 0x56,
            _ => 0,
        }
    }
}

} // verus!
