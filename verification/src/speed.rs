//! Frames of the road-camera protocol.
//!
//! A frame is a type byte followed by big-endian fields; strings carry
//! a one-byte length prefix. The reader consumes a frame only when all
//! of its bytes have arrived, and answers an unknown type byte with an
//! error frame naming it. The writer spells out the three frame kinds
//! the service ever sends: errors, tickets and heartbeats.

use vstd::prelude::*;
use vstd::string::StringSliceAdditionalSpecFns;
use crate::codec::dec_rep;
use crate::codec::push_decimal;

verus! {

/// A wire frame.
pub enum Frame {
    Error(Vec<u8>),
    Plate(Vec<u8>, u32),
    Ticket(Vec<u8>, u16, u16, u32, u16, u32, u16),
    WantHeartbeat(u32),
    Heartbeat,
    IAmCamera(u16, u16, u16),
    IAmDispatcher(u8, Vec<u16>),
}

pub enum SpecFrame {
    Error(Seq<u8>),
    Plate(Seq<u8>, u32),
    Ticket(Seq<u8>, u16, u16, u32, u16, u32, u16),
    WantHeartbeat(u32),
    Heartbeat,
    IAmCamera(u16, u16, u16),
    IAmDispatcher(u8, Seq<u16>),
}

impl View for Frame {
    type V = SpecFrame;

    open spec fn view(&self) -> SpecFrame {
        match self {
            Frame::Error(m) => SpecFrame::Error(m@),
            Frame::Plate(p, ts) => SpecFrame::Plate(p@, *ts),
            Frame::Ticket(p, road, m1, t1, m2, t2, sp) => SpecFrame::Ticket(
                p@,
                *road,
                *m1,
                *t1,
                *m2,
                *t2,
                *sp,
            ),
            Frame::WantHeartbeat(iv) => SpecFrame::WantHeartbeat(*iv),
            Frame::Heartbeat => SpecFrame::Heartbeat,
            Frame::IAmCamera(r, m, l) => SpecFrame::IAmCamera(*r, *m, *l),
            Frame::IAmDispatcher(n, roads) => SpecFrame::IAmDispatcher(*n, roads@),
        }
    }
}

/// How a frame read can fail: not all bytes are here yet, or the
/// stream is beyond repair.
#[derive(Debug)]
pub enum FrameError {
    Incomplete,
    Fatal(Vec<u8>),
}

/// Two big-endian bytes at `off`.
pub open spec fn be16(s: Seq<u8>, off: int) -> int {
    s[off] * 0x100 + s[off + 1]
}

/// Four big-endian bytes at `off`.
pub open spec fn be32(s: Seq<u8>, off: int) -> int {
    s[off] * 0x1000000 + s[off + 1] * 0x10000 + s[off + 2] * 0x100 + s[off + 3]
}

/// Reads one byte at the cursor.
pub fn next_u8(b: &[u8], pos: &mut usize) -> (r: Result<u8, FrameError>)
    requires
        *old(pos) <= b@.len(),
    ensures
        match r {
            Ok(v) => *old(pos) + 1 <= b@.len() && v == b@[*old(pos) as int] && *final(pos)
                == *old(pos) + 1,
            Err(e) => *old(pos) == b@.len() && (e matches FrameError::Incomplete) && *final(pos) == *old(pos),
        },
{
    if *pos < b.len() {
        let v = b[*pos];
        *pos = *pos + 1;
        Ok(v)
    } else {
        Err(FrameError::Incomplete)
    }
}

/// Reads a big-endian 16-bit field.
pub fn next_u16(b: &[u8], pos: &mut usize) -> (r: Result<u16, FrameError>)
    requires
        *old(pos) <= b@.len(),
    ensures
        match r {
            Ok(v) => *old(pos) + 2 <= b@.len() && v == be16(b@, *old(pos) as int) && *final(pos) == *old(pos) + 2,
            Err(e) => *old(pos) + 2 > b@.len() && (e matches FrameError::Incomplete)
                && *final(pos) == *old(pos),
        },
{
    if b.len() - *pos >= 2 {
        let v: u16 = b[*pos] as u16 * 0x100 + b[*pos + 1] as u16;
        *pos = *pos + 2;
        Ok(v)
    } else {
        Err(FrameError::Incomplete)
    }
}

/// Reads a big-endian 32-bit field.
pub fn next_u32(b: &[u8], pos: &mut usize) -> (r: Result<u32, FrameError>)
    requires
        *old(pos) <= b@.len(),
    ensures
        match r {
            Ok(v) => *old(pos) + 4 <= b@.len() && v == be32(b@, *old(pos) as int) && *final(pos) == *old(pos) + 4,
            Err(e) => *old(pos) + 4 > b@.len() && (e matches FrameError::Incomplete)
                && *final(pos) == *old(pos),
        },
{
    if b.len() - *pos >= 4 {
        let v: u32 = b[*pos] as u32 * 0x1000000 + b[*pos + 1] as u32 * 0x10000 + b[*pos
            + 2] as u32 * 0x100 + b[*pos + 3] as u32;
        *pos = *pos + 4;
        Ok(v)
    } else {
        Err(FrameError::Incomplete)
    }
}

/// Reads a length-prefixed string as raw bytes.
pub fn next_string(b: &[u8], pos: &mut usize) -> (r: Result<Vec<u8>, FrameError>)
    requires
        *old(pos) <= b@.len(),
    ensures
        match r {
            Ok(v) => {
                &&& *old(pos) < b@.len()
                &&& *old(pos) + 1 + b@[*old(pos) as int] <= b@.len()
                &&& v@ == b@.subrange(
                    *old(pos) + 1,
                    *old(pos) + 1 + b@[*old(pos) as int],
                )
                &&& *final(pos) == *old(pos) + 1 + b@[*old(pos) as int]
            },
            Err(e) => {
                &&& (e matches FrameError::Incomplete)
                &&& (*old(pos) == b@.len() || *old(pos) + 1 + b@[*old(pos) as int]
                    > b@.len())
                &&& *final(pos) == *old(pos)
            },
        },
{
    if *pos >= b.len() {
        return Err(FrameError::Incomplete);
    }
    let n = b[*pos] as usize;
    if b.len() - (*pos + 1) < n {
        return Err(FrameError::Incomplete);
    }
    let s = vstd::slice::slice_subrange(b, *pos + 1, *pos + 1 + n);
    let v = crate::codec::copy_bytes(s);
    *pos = *pos + 1 + n;
    Ok(v)
}

/// Reads `len` big-endian 16-bit fields.
pub fn next_u16_vec(b: &[u8], pos: &mut usize, len: usize) -> (r: Result<
    Vec<u16>,
    FrameError,
>)
    requires
        *old(pos) <= b@.len(),
    ensures
        match r {
            Ok(v) => {
                &&& *old(pos) + 2 * len <= b@.len()
                &&& v@.len() == len
                &&& forall|i: int|
                    0 <= i < len ==> #[trigger] v@[i] == be16(b@, *old(pos) + 2 * i)
                &&& *final(pos) == *old(pos) + 2 * len
            },
            Err(e) => {
                &&& (e matches FrameError::Incomplete)
                &&& *old(pos) + 2 * len > b@.len()
                &&& *old(pos) <= *final(pos) <= b@.len()
            },
        },
{
    let mut v: Vec<u16> = Vec::new();
    let mut i: usize = 0;
    while i < len
        invariant
            i <= len,
            *pos == *old(pos) + 2 * i,
            *pos <= b@.len(),
            v@.len() == i,
            forall|q: int| 0 <= q < i ==> #[trigger] v@[q] == be16(b@, *old(pos) + 2 * q),
        decreases len - i,
    {
        match next_u16(b, pos) {
            Ok(x) => {
                v.push(x);
            },
            Err(e) => {
                return Err(e);
            },
        }
        i = i + 1;
    }
    Ok(v)
}

/// The error text for an unknown type byte.
pub open spec fn unsupported_text(t: u8) -> Seq<u8> {
    "unsupported message type received (".spec_bytes() + dec_rep(t as nat) + seq![')' as u8]
}

/// What one buffered read yields: the parsed frame and the bytes it
/// consumed, or nothing while the frame is still arriving. An unknown
/// type byte consumes itself and yields an error frame naming it.
pub open spec fn spec_parse(b: Seq<u8>) -> Option<(SpecFrame, int)> {
    if b.len() < 1 {
        None
    } else {
        let t = b[0];
        if t == 0x20 {
            if b.len() < 2 {
                None
            } else {
                let n = b[1] as int;
                if b.len() < 2 + n + 4 {
                    None
                } else {
                    Some(
                        (
                            SpecFrame::Plate(b.subrange(2, 2 + n), be32(b, 2 + n) as u32),
                            2 + n + 4,
                        ),
                    )
                }
            }
        } else if t == 0x40 {
            if b.len() < 5 {
                None
            } else {
                Some((SpecFrame::WantHeartbeat(be32(b, 1) as u32), 5))
            }
        } else if t == 0x80 {
            if b.len() < 7 {
                None
            } else {
                Some(
                    (
                        SpecFrame::IAmCamera(
                            be16(b, 1) as u16,
                            be16(b, 3) as u16,
                            be16(b, 5) as u16,
                        ),
                        7,
                    ),
                )
            }
        } else if t == 0x81 {
            if b.len() < 2 {
                None
            } else {
                let n = b[1] as int;
                if b.len() < 2 + 2 * n {
                    None
                } else {
                    Some(
                        (
                            SpecFrame::IAmDispatcher(
                                b[1],
                                Seq::new(n as nat, |i: int| be16(b, 2 + 2 * i) as u16),
                            ),
                            2 + 2 * n,
                        ),
                    )
                }
            }
        } else {
            Some((SpecFrame::Error(unsupported_text(t)), 1))
        }
    }
}

/// Parses the next frame out of the buffered bytes, as [`spec_parse`]
/// says; the caller drops the consumed prefix.
pub fn try_next(buf: &[u8]) -> (r: Result<(Frame, usize), FrameError>)
    ensures
        match r {
            Ok((f, n)) => spec_parse(buf@) == Some((f@, n as int)) && n <= buf@.len(),
            Err(e) => (e matches FrameError::Incomplete) && spec_parse(buf@) is None,
        },
{
    let mut pos: usize = 0;
    let t = match next_u8(buf, &mut pos) {
        Ok(t) => t,
        Err(e) => {
            return Err(e);
        },
    };
    if t == 0x20 {
        let plate = match next_string(buf, &mut pos) {
            Ok(p) => p,
            Err(_) => {
                return Err(FrameError::Incomplete);
            },
        };
        let timestamp = match next_u32(buf, &mut pos) {
            Ok(v) => v,
            Err(_) => {
                return Err(FrameError::Incomplete);
            },
        };
        proof {
            assert(plate@ =~= buf@.subrange(2, 2 + buf@[1] as int));
        }
        Ok((Frame::Plate(plate, timestamp), pos))
    } else if t == 0x40 {
        let interval = match next_u32(buf, &mut pos) {
            Ok(v) => v,
            Err(_) => {
                return Err(FrameError::Incomplete);
            },
        };
        Ok((Frame::WantHeartbeat(interval), pos))
    } else if t == 0x80 {
        let road = match next_u16(buf, &mut pos) {
            Ok(v) => v,
            Err(_) => {
                return Err(FrameError::Incomplete);
            },
        };
        let mile = match next_u16(buf, &mut pos) {
            Ok(v) => v,
            Err(_) => {
                return Err(FrameError::Incomplete);
            },
        };
        let limit = match next_u16(buf, &mut pos) {
            Ok(v) => v,
            Err(_) => {
                return Err(FrameError::Incomplete);
            },
        };
        Ok((Frame::IAmCamera(road, mile, limit), pos))
    } else if t == 0x81 {
        let num_roads = match next_u8(buf, &mut pos) {
            Ok(v) => v,
            Err(_) => {
                return Err(FrameError::Incomplete);
            },
        };
        let roads = match next_u16_vec(buf, &mut pos, num_roads as usize) {
            Ok(v) => v,
            Err(_) => {
                return Err(FrameError::Incomplete);
            },
        };
        proof {
            assert(roads@ =~= Seq::new(
                num_roads as nat,
                |i: int| be16(buf@, 2 + 2 * i) as u16,
            ));
        }
        Ok((Frame::IAmDispatcher(num_roads, roads), pos))
    } else {
        let mut text = crate::codec::copy_bytes("unsupported message type received (".as_bytes());
        push_decimal(&mut text, t as usize);
        text.push(')' as u8);
        proof {
            assert(text@ =~= unsupported_text(t));
        }
        Ok((Frame::Error(text), 1))
    }
}

/// The bytes of an outbound frame; only errors, tickets and heartbeats
/// are ever sent.
pub open spec fn be16_rep(v: u16) -> Seq<u8> {
    seq![(v / 0x100) as u8, (v % 0x100) as u8]
}

pub open spec fn be32_rep(v: u32) -> Seq<u8> {
    seq![
        (v / 0x1000000) as u8,
        (v / 0x10000 % 0x100) as u8,
        (v / 0x100 % 0x100) as u8,
        (v % 0x100) as u8,
    ]
}

pub open spec fn spec_frame_bytes(f: SpecFrame) -> Seq<u8> {
    match f {
        SpecFrame::Error(m) => seq![0x10u8, m.len() as u8] + m,
        SpecFrame::Ticket(p, road, m1, t1, m2, t2, sp) => seq![0x21u8, p.len() as u8] + p
            + be16_rep(road) + be16_rep(m1) + be32_rep(t1) + be16_rep(m2) + be32_rep(t2)
            + be16_rep(sp),
        SpecFrame::Heartbeat => seq![0x41u8],
        _ => Seq::empty(),
    }
}

/// Appends the two big-endian bytes of `v`.
pub fn push_be16(out: &mut Vec<u8>, v: u16)
    ensures
        final(out)@ == old(out)@ + be16_rep(v),
{
    out.push((v / 0x100) as u8);
    out.push((v % 0x100) as u8);
    proof {
        assert(out@ =~= old(out)@ + be16_rep(v));
    }
}

/// Appends the four big-endian bytes of `v`.
pub fn push_be32(out: &mut Vec<u8>, v: u32)
    ensures
        final(out)@ == old(out)@ + be32_rep(v),
{
    out.push((v / 0x1000000) as u8);
    out.push((v / 0x10000 % 0x100) as u8);
    out.push((v / 0x100 % 0x100) as u8);
    out.push((v % 0x100) as u8);
    proof {
        assert(out@ =~= old(out)@ + be32_rep(v));
    }
}

/// Spells an outbound frame as wire bytes.
pub fn frame_bytes(f: &Frame) -> (r: Vec<u8>)
    requires
        (f matches Frame::Error(m) ==> m@.len() <= 255),
        (f matches Frame::Ticket(p, _road, _m1, _t1, _m2, _t2, _sp) ==> p@.len() <= 255),
        f matches Frame::Error(_) || f matches Frame::Ticket(
            _,
            _,
            _,
            _,
            _,
            _,
            _,
        ) || f matches Frame::Heartbeat,
    ensures
        r@ == spec_frame_bytes(f@),
{
    let mut out: Vec<u8> = Vec::new();
    match f {
        Frame::Error(m) => {
            out.push(0x10);
            out.push(m.len() as u8);
            out.extend_from_slice(m.as_slice());
            proof {
                assert(out@ =~= spec_frame_bytes(f@));
            }
        },
        Frame::Ticket(p, road, m1, t1, m2, t2, sp) => {
            out.push(0x21);
            out.push(p.len() as u8);
            out.extend_from_slice(p.as_slice());
            push_be16(&mut out, *road);
            push_be16(&mut out, *m1);
            push_be32(&mut out, *t1);
            push_be16(&mut out, *m2);
            push_be32(&mut out, *t2);
            push_be16(&mut out, *sp);
            proof {
                assert(out@ =~= spec_frame_bytes(f@));
            }
        },
        _ => {
            out.push(0x41);
            proof {
                assert(out@ =~= spec_frame_bytes(f@));
            }
        },
    }
    out
}

/// An error to report to the peer.
pub struct Error {
    msg: Vec<u8>,
}

impl View for Error {
    type V = Seq<u8>;

    closed spec fn view(&self) -> Seq<u8> {
        self.msg@
    }
}

impl Error {
    pub fn new(msg: Vec<u8>) -> (r: Error)
        ensures
            r@ == msg@,
    {
        Error { msg }
    }

    /// The error's wire text.
    pub fn into_bytes(self) -> (r: Vec<u8>)
        ensures
            r@ == self@,
    {
        self.msg
    }
}

/// A plate observation reported by a camera.
pub struct Plate {
    pub plate: Vec<u8>,
    pub timestamp: u32,
}

/// A speeding ticket for a dispatcher.
pub struct Ticket {
    pub plate: Vec<u8>,
    pub road: u16,
    pub mile1: u16,
    pub timestamp1: u32,
    pub mile2: u16,
    pub timestamp2: u32,
    pub speed: u16,
}

pub struct WantHeartbeat {
    pub interval: u32,
}

#[derive(Eq, PartialEq, Hash, Copy, Clone, Debug)]
pub struct IAmCamera {
    pub road: u16,
    pub mile: u16,
    pub limit: u16,
}

pub struct IAmDispatcher {
    pub num_roads: u8,
    pub roads: Vec<u16>,
}

impl IAmDispatcher {
    pub fn new(num_roads: u8, roads: Vec<u16>) -> (r: IAmDispatcher)
        ensures
            r.num_roads == num_roads,
            r.roads@ == roads@,
    {
        IAmDispatcher { num_roads, roads }
    }
}

/// The messages a client can open with or send.
pub enum InMessage {
    Error(Error),
    Plate(Plate),
    WantHeartbeat(WantHeartbeat),
    IAmCamera(IAmCamera),
    IAmDispatcher(IAmDispatcher),
}

/// The messages the service sends back.
pub enum OutMessage {
    Error(Error),
    Ticket(Ticket),
    Heartbeat,
}

impl InMessage {
    /// Types an inbound frame; tickets and heartbeats never arrive.
    pub fn from_frame(frame: Frame) -> (r: InMessage)
        requires
            !(frame matches Frame::Ticket(_, _, _, _, _, _, _)),
            !(frame matches Frame::Heartbeat),
        ensures
            (frame matches Frame::Error(m) ==> (r matches InMessage::Error(e) && e@ == m@)),
            (frame matches Frame::Plate(p, ts) ==> (r matches InMessage::Plate(pl)
                && pl.plate@ == p@ && pl.timestamp == ts)),
            (frame matches Frame::WantHeartbeat(iv) ==> (r matches InMessage::WantHeartbeat(
                w,
            ) && w.interval == iv)),
            (frame matches Frame::IAmCamera(road, mile, limit) ==> (r matches
                InMessage::IAmCamera(c) && c.road == road && c.mile == mile && c.limit
                == limit)),
            (frame matches Frame::IAmDispatcher(n, roads) ==> (r matches
                InMessage::IAmDispatcher(d) && d.num_roads == n && d.roads@ == roads@)),
    {
        match frame {
            Frame::Error(m) => InMessage::Error(Error::new(m)),
            Frame::Plate(p, ts) => InMessage::Plate(Plate { plate: p, timestamp: ts }),
            Frame::WantHeartbeat(iv) => InMessage::WantHeartbeat(
                WantHeartbeat { interval: iv },
            ),
            Frame::IAmCamera(road, mile, limit) => InMessage::IAmCamera(
                IAmCamera { road, mile, limit },
            ),
            _ => InMessage::IAmDispatcher(
                match frame {
                    Frame::IAmDispatcher(n, roads) => IAmDispatcher::new(n, roads),
                    _ => IAmDispatcher::new(0, Vec::new()),
                },
            ),
        }
    }
}

/// What one connection has identified itself as.
pub enum Role {
    Unidentified,
    Camera(IAmCamera),
    Dispatcher,
}

/// What the connection loop is to do with one inbound message.
pub enum ClientAction {
    StartHeartbeat(u32),
    RegisterCamera(IAmCamera),
    RecordPlate(IAmCamera, Plate),
    RegisterDispatcher(IAmDispatcher),
    SendError(Vec<u8>),
}

/// One step of the per-connection protocol: a heartbeat wish is always
/// honoured (unless the interval is zero, which asks for none), a
/// client identifies itself exactly once, a camera may then report
/// plates, and everything else is answered with the matching error.
pub fn client_step(role: Role, msg: InMessage) -> (r: (Role, Option<ClientAction>))
    ensures
        msg matches InMessage::WantHeartbeat(w) ==> r.0 == role && (if w.interval == 0 {
            r.1 is None
        } else {
            r.1 == Some(ClientAction::StartHeartbeat(w.interval))
        }),
        msg matches InMessage::IAmCamera(c) ==> (match role {
            Role::Unidentified => (r.0 matches Role::Camera(rc) && rc == c) && r.1 == Some(
                ClientAction::RegisterCamera(c),
            ),
            Role::Camera(_) => r.0 == role && (r.1 matches Some(
                ClientAction::SendError(m),
            ) && m@ == "bad camera plate request".spec_bytes()),
            Role::Dispatcher => r.0 == role && (r.1 matches Some(
                ClientAction::SendError(m),
            ) && m@ == "client tried to identify twice".spec_bytes()),
        }),
        msg matches InMessage::IAmDispatcher(d) ==> (match role {
            Role::Unidentified => (r.0 matches Role::Dispatcher) && (r.1 matches Some(
                ClientAction::RegisterDispatcher(rd),
            ) && rd.num_roads == d.num_roads && rd.roads@ == d.roads@),
            Role::Camera(_) => r.0 == role && (r.1 matches Some(
                ClientAction::SendError(m),
            ) && m@ == "bad camera plate request".spec_bytes()),
            Role::Dispatcher => r.0 == role && (r.1 matches Some(
                ClientAction::SendError(m),
            ) && m@ == "client tried to identify twice".spec_bytes()),
        }),
        msg matches InMessage::Plate(p) ==> (match role {
            Role::Camera(c) => r.0 == role && (r.1 matches Some(
                ClientAction::RecordPlate(rc, rp),
            ) && rc == c && rp.plate@ == p.plate@ && rp.timestamp == p.timestamp),
            Role::Unidentified => r.0 == role && (r.1 matches Some(
                ClientAction::SendError(m),
            ) && m@ == "bad client connect frame request".spec_bytes()),
            Role::Dispatcher => r.0 == role && (r.1 matches Some(
                ClientAction::SendError(m),
            ) && m@ == "bad client connect frame request".spec_bytes()),
        }),
        msg matches InMessage::Error(e) ==> (match role {
            Role::Camera(_) => r.0 == role && (r.1 matches Some(
                ClientAction::SendError(m),
            ) && m@ == "bad camera plate request".spec_bytes()),
            Role::Unidentified => r.0 == role && (r.1 matches Some(
                ClientAction::SendError(m),
            ) && m@ == e@),
            Role::Dispatcher => r.0 == role && (r.1 matches Some(
                ClientAction::SendError(m),
            ) && m@ == e@),
        }),
{
    match msg {
        InMessage::WantHeartbeat(w) => {
            if w.interval == 0 {
                (role, None)
            } else {
                let iv = w.interval;
                (role, Some(ClientAction::StartHeartbeat(iv)))
            }
        },
        InMessage::IAmCamera(c) => {
            match role {
                Role::Unidentified => (
                    Role::Camera(c),
                    Some(ClientAction::RegisterCamera(c)),
                ),
                Role::Camera(rc) => (
                    Role::Camera(rc),
                    Some(
                        ClientAction::SendError(
                            crate::codec::copy_bytes("bad camera plate request".as_bytes()),
                        ),
                    ),
                ),
                Role::Dispatcher => (
                    Role::Dispatcher,
                    Some(
                        ClientAction::SendError(
                            crate::codec::copy_bytes(
                                "client tried to identify twice".as_bytes(),
                            ),
                        ),
                    ),
                ),
            }
        },
        InMessage::IAmDispatcher(d) => {
            match role {
                Role::Unidentified => (
                    Role::Dispatcher,
                    Some(ClientAction::RegisterDispatcher(d)),
                ),
                Role::Camera(rc) => (
                    Role::Camera(rc),
                    Some(
                        ClientAction::SendError(
                            crate::codec::copy_bytes("bad camera plate request".as_bytes()),
                        ),
                    ),
                ),
                Role::Dispatcher => (
                    Role::Dispatcher,
                    Some(
                        ClientAction::SendError(
                            crate::codec::copy_bytes(
                                "client tried to identify twice".as_bytes(),
                            ),
                        ),
                    ),
                ),
            }
        },
        InMessage::Plate(p) => {
            match role {
                Role::Camera(c) => (
                    Role::Camera(c),
                    Some(ClientAction::RecordPlate(c, p)),
                ),
                Role::Unidentified => (
                    Role::Unidentified,
                    Some(
                        ClientAction::SendError(
                            crate::codec::copy_bytes(
                                "bad client connect frame request".as_bytes(),
                            ),
                        ),
                    ),
                ),
                Role::Dispatcher => (
                    Role::Dispatcher,
                    Some(
                        ClientAction::SendError(
                            crate::codec::copy_bytes(
                                "bad client connect frame request".as_bytes(),
                            ),
                        ),
                    ),
                ),
            }
        },
        InMessage::Error(e) => {
            match role {
                Role::Camera(rc) => (
                    Role::Camera(rc),
                    Some(
                        ClientAction::SendError(
                            crate::codec::copy_bytes("bad camera plate request".as_bytes()),
                        ),
                    ),
                ),
                Role::Unidentified => (
                    Role::Unidentified,
                    Some(ClientAction::SendError(e.into_bytes())),
                ),
                Role::Dispatcher => (
                    Role::Dispatcher,
                    Some(ClientAction::SendError(e.into_bytes())),
                ),
            }
        },
    }
}

impl OutMessage {
    /// Frames an outbound message.
    pub fn to_frame(self) -> (r: Frame)
        ensures
            (self matches OutMessage::Error(e) ==> (r matches Frame::Error(m) && m@ == e@)),
            (self matches OutMessage::Ticket(t) ==> (r matches Frame::Ticket(
                p,
                road,
                m1,
                t1,
                m2,
                t2,
                sp,
            ) && p@ == t.plate@ && road == t.road && m1 == t.mile1 && t1 == t.timestamp1
                && m2 == t.mile2 && t2 == t.timestamp2 && sp == t.speed)),
            (self matches OutMessage::Heartbeat ==> r matches Frame::Heartbeat),
    {
        match self {
            OutMessage::Error(e) => Frame::Error(e.into_bytes()),
            OutMessage::Ticket(t) => Frame::Ticket(
                t.plate,
                t.road,
                t.mile1,
                t.timestamp1,
                t.mile2,
                t.timestamp2,
                t.speed,
            ),
            OutMessage::Heartbeat => Frame::Heartbeat,
        }
    }
}

} // verus!
