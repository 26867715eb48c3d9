//! The asset-price session protocol: nine-byte messages and the mean
//! query they drive.
//!
//! A message is one type byte (`I` inserts, `Q` queries) followed by
//! two big-endian signed 32-bit integers. A query answers with the
//! truncating integer mean of every inserted price whose timestamp lies
//! in the closed interval, and with zero when none does.

use vstd::prelude::*;

verus! {

/// The value of four big-endian bytes.
pub open spec fn be_u32_val(s: Seq<u8>) -> int {
    s[0] * 0x1000000 + s[1] * 0x10000 + s[2] * 0x100 + s[3]
}

/// The same four bytes read as a two's-complement signed integer.
pub open spec fn be_i32_val(s: Seq<u8>) -> int {
    if be_u32_val(s) >= 0x80000000 {
        be_u32_val(s) - 0x100000000
    } else {
        be_u32_val(s)
    }
}

/// Reads the signed 32-bit field at `off` in a nine-byte message.
fn read_be_i32(b: &[u8; 9], off: usize) -> (r: i32)
    requires
        off == 1 || off == 5,
    ensures
        r as int == be_i32_val(b@.subrange(off as int, off + 4)),
{
    let v: u32 = b[off] as u32 * 0x1000000 + b[off + 1] as u32 * 0x10000 + b[off + 2] as u32
        * 0x100 + b[off + 3] as u32;
    proof {
        let s = b@.subrange(off as int, off + 4);
        assert(s[0] == b@[off as int] && s[1] == b@[off + 1] && s[2] == b@[off + 2] && s[3]
            == b@[off + 3]);
    }
    let w: i64 = if v >= 0x80000000 {
        v as i64 - 0x100000000
    } else {
        v as i64
    };
    w as i32
}

/// A raw nine-byte message body: the two integer fields.
#[derive(PartialEq, Eq, Debug)]
pub struct Message(pub i32, pub i32);

impl Message {
    /// The two big-endian fields after the type byte.
    pub fn from_bytes(b: &[u8; 9]) -> (r: Message)
        ensures
            r.0 as int == be_i32_val(b@.subrange(1, 5)),
            r.1 as int == be_i32_val(b@.subrange(5, 9)),
    {
        Message(read_be_i32(b, 1), read_be_i32(b, 5))
    }
}

/// An insertion: a price observed at a timestamp.
#[derive(PartialEq, Eq, Debug)]
pub struct Insert {
    pub timestamp: i32,
    pub price: i32,
}

impl Insert {
    pub fn from_bytes(b: &[u8; 9]) -> (r: Insert)
        ensures
            r.timestamp as int == be_i32_val(b@.subrange(1, 5)),
            r.price as int == be_i32_val(b@.subrange(5, 9)),
    {
        let m = Message::from_bytes(b);
        Insert { timestamp: m.0, price: m.1 }
    }
}

/// A query: the closed timestamp interval to average over.
#[derive(PartialEq, Eq, Debug)]
pub struct Query {
    pub mintime: i32,
    pub maxtime: i32,
}

impl Query {
    pub fn from_bytes(b: &[u8; 9]) -> (r: Query)
        ensures
            r.mintime as int == be_i32_val(b@.subrange(1, 5)),
            r.maxtime as int == be_i32_val(b@.subrange(5, 9)),
    {
        let m = Message::from_bytes(b);
        Query { mintime: m.0, maxtime: m.1 }
    }
}

#[derive(PartialEq, Eq, Debug)]
pub enum MsgType {
    I,
    Q,
}

/// A typed message: kind plus the two integer fields.
#[derive(PartialEq, Eq, Debug)]
pub struct Msg(pub MsgType, pub i32, pub i32);

impl Msg {
    /// Reads a nine-byte message; any type byte but `I` or `Q` is
    /// rejected.
    pub fn try_from_bytes(b: &[u8; 9]) -> (r: Result<Msg, ()>)
        ensures
            b@[0] == 'I' as u8 ==> (r matches Ok(m) && (m.0 matches MsgType::I) && m.1 as int
                == be_i32_val(b@.subrange(1, 5)) && m.2 as int == be_i32_val(
                b@.subrange(5, 9),
            )),
            b@[0] == 'Q' as u8 ==> (r matches Ok(m) && (m.0 matches MsgType::Q) && m.1 as int
                == be_i32_val(b@.subrange(1, 5)) && m.2 as int == be_i32_val(
                b@.subrange(5, 9),
            )),
            b@[0] != 'I' as u8 && b@[0] != 'Q' as u8 ==> r is Err,
    {
        let t = b[0];
        if t == 'I' as u8 {
            let m = Message::from_bytes(b);
            Ok(Msg(MsgType::I, m.0, m.1))
        } else if t == 'Q' as u8 {
            let m = Message::from_bytes(b);
            Ok(Msg(MsgType::Q, m.0, m.1))
        } else {
            Err(())
        }
    }
}

/// How many inserted prices fall in the closed interval.
pub open spec fn spec_count(db: Seq<Insert>, lo: int, hi: int) -> int
    decreases db.len(),
{
    if db.len() == 0 {
        0
    } else {
        spec_count(db.drop_last(), lo, hi) + if lo <= db.last().timestamp <= hi {
            1int
        } else {
            0int
        }
    }
}

/// Their summed prices.
pub open spec fn spec_sum(db: Seq<Insert>, lo: int, hi: int) -> int
    decreases db.len(),
{
    if db.len() == 0 {
        0
    } else {
        spec_sum(db.drop_last(), lo, hi) + if lo <= db.last().timestamp <= hi {
            db.last().price as int
        } else {
            0int
        }
    }
}

/// Division truncating towards zero, as the machine division behaves.
pub open spec fn tdiv(a: int, b: int) -> int {
    if a >= 0 {
        a / b
    } else {
        -((-a) / b)
    }
}

proof fn lemma_sum_bounds(db: Seq<Insert>, lo: int, hi: int)
    ensures
        0 <= spec_count(db, lo, hi) <= db.len(),
        spec_sum(db, lo, hi) <= spec_count(db, lo, hi) * 0x7fffffff,
        spec_sum(db, lo, hi) >= spec_count(db, lo, hi) * (-0x80000000),
    decreases db.len(),
{
    if db.len() > 0 {
        lemma_sum_bounds(db.drop_last(), lo, hi);
        let c = spec_count(db.drop_last(), lo, hi);
        assert(c * 0x7fffffff + 0x7fffffff == (c + 1) * 0x7fffffff) by (nonlinear_arith);
        assert(c * (-0x80000000) + (-0x80000000) == (c + 1) * (-0x80000000))
            by (nonlinear_arith);
    }
}

/// The truncating mean of the prices inserted in `[mintime, maxtime]`,
/// zero when the interval holds none.
pub fn mean_in_range(db: &Vec<Insert>, mintime: i32, maxtime: i32) -> (r: i32)
    requires
        db@.len() <= 0x40000000,
    ensures
        ({
            let cnt = spec_count(db@, mintime as int, maxtime as int);
            r as int == tdiv(
                spec_sum(db@, mintime as int, maxtime as int),
                if cnt == 0 {
                    1
                } else {
                    cnt
                },
            )
        }),
{
    let mut sum: i64 = 0;
    let mut count: i64 = 0;
    let mut i: usize = 0;
    while i < db.len()
        invariant
            db@.len() <= 0x40000000,
            i <= db@.len(),
            count == spec_count(db@.take(i as int), mintime as int, maxtime as int),
            sum == spec_sum(db@.take(i as int), mintime as int, maxtime as int),
            0 <= count <= i,
            -0x80000000 * (i as int) <= sum <= 0x7fffffff * (i as int),
        decreases db@.len() - i,
    {
        proof {
            assert(db@.take(i + 1).drop_last() =~= db@.take(i as int));
            assert(db@.take(i + 1).last() == db@[i as int]);
        }
        let e = &db[i];
        if mintime <= e.timestamp && e.timestamp <= maxtime {
            sum = sum + e.price as i64;
            count = count + 1;
        }
        i = i + 1;
    }
    proof {
        assert(db@.take(db@.len() as int) =~= db@);
        lemma_sum_bounds(db@, mintime as int, maxtime as int);
    }
    let cnt: i64 = if count == 0 {
        1
    } else {
        count
    };
    let mean: i64 = if sum >= 0 {
        (sum as u64 / cnt as u64) as i64
    } else {
        let q = (-sum) as u64 / cnt as u64;
        proof {
            assert(sum >= count * (-0x80000000));
            assert((-sum) as u64 / cnt as u64 <= 0x80000000) by (nonlinear_arith)
                requires
                    0 - sum <= cnt * 0x80000000,
                    cnt >= 1,
                    sum < 0,
                    q == (-sum) as u64 / cnt as u64,
            ;
        }
        -(q as i64)
    };
    proof {
        if sum >= 0 {
            assert(sum <= cnt * 0x7fffffff);
            assert(sum / cnt <= 0x7fffffff) by (nonlinear_arith)
                requires
                    sum <= cnt * 0x7fffffff,
                    cnt >= 1,
                    sum >= 0,
            ;
            assert(sum / cnt >= 0) by (nonlinear_arith)
                requires
                    cnt >= 1,
                    sum >= 0,
            ;
        }
    }
    mean as i32
}

} // verus!
