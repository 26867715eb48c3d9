//! Message codec of the line-reversal session protocol.
//!
//! One datagram carries one message of at most 1000 bytes, written as
//! `/`-delimited fields: `/connect/SESSION/`, `/data/SESSION/POS/DATA/`,
//! `/ack/SESSION/LENGTH/` and `/close/SESSION/`. In a `data` payload a
//! backslash is written `\\` and a slash `\/`; [`escape`] and
//! [`unescape`] fix the order so that the two are exact inverses
//! ([`lemma_unescape_escape`]).

use vstd::prelude::*;

verus! {

pub const SLASH: u8 = 47;
pub const BACKSLASH: u8 = 92;
pub const NEWLINE: u8 = 10;

/// The payload escaping: `\` becomes `\\`, `/` becomes `\/`, every other
/// byte stands for itself.
pub open spec fn escape_byte(b: u8) -> Seq<u8> {
    if b == SLASH || b == BACKSLASH {
        seq![BACKSLASH, b]
    } else {
        seq![b]
    }
}

pub open spec fn escape(s: Seq<u8>) -> Seq<u8>
    decreases s.len(),
{
    if s.len() == 0 {
        Seq::empty()
    } else {
        escape_byte(s[0]) + escape(s.skip(1))
    }
}

/// The inverse of [`escape`]: a backslash must announce a `\` or a `/`,
/// and a bare slash is malformed (it would have ended the field).
pub open spec fn unescape(s: Seq<u8>) -> Option<Seq<u8>>
    decreases s.len(),
{
    if s.len() == 0 {
        Some(Seq::empty())
    } else if s[0] == BACKSLASH {
        if s.len() >= 2 && (s[1] == BACKSLASH || s[1] == SLASH) {
            match unescape(s.skip(2)) {
                Some(t) => Some(seq![s[1]] + t),
                None => None,
            }
        } else {
            None
        }
    } else if s[0] == SLASH {
        None
    } else {
        match unescape(s.skip(1)) {
            Some(t) => Some(seq![s[0]] + t),
            None => None,
        }
    }
}

pub proof fn lemma_escape_append(a: Seq<u8>, b: Seq<u8>)
    ensures
        escape(a + b) == escape(a) + escape(b),
    decreases a.len(),
{
    if a.len() == 0 {
        assert(a + b =~= b);
        assert(escape(a) + escape(b) =~= escape(b));
    } else {
        lemma_escape_append(a.skip(1), b);
        assert((a + b).skip(1) =~= a.skip(1) + b);
        assert((a + b)[0] == a[0]);
        assert(escape_byte(a[0]) + (escape(a.skip(1)) + escape(b)) =~= (escape_byte(a[0])
            + escape(a.skip(1))) + escape(b));
    }
}

/// Escaping then unescaping gives every payload back unchanged: the
/// codec's payload round trip.
pub proof fn lemma_unescape_escape(s: Seq<u8>)
    ensures
        unescape(escape(s)) == Some(s),
    decreases s.len(),
{
    if s.len() == 0 {
        assert(s =~= Seq::<u8>::empty());
    } else {
        lemma_unescape_escape(s.skip(1));
        let e = escape(s);
        let rest = escape(s.skip(1));
        if s[0] == SLASH || s[0] == BACKSLASH {
            assert(e =~= seq![BACKSLASH, s[0]] + rest);
            assert(e[0] == BACKSLASH && e[1] == s[0]);
            assert(e.skip(2) =~= rest);
            assert(seq![s[0]] + s.skip(1) =~= s);
        } else {
            assert(e =~= seq![s[0]] + rest);
            assert(e[0] == s[0]);
            assert(e.skip(1) =~= rest);
            assert(seq![s[0]] + s.skip(1) =~= s);
        }
    }
}

/// Applies [`escape`] to a byte slice.
pub fn escape_bytes(s: &[u8]) -> (r: Vec<u8>)
    ensures
        r@ == escape(s@),
{
    let mut out: Vec<u8> = Vec::new();
    let mut i: usize = 0;
    while i < s.len()
        invariant
            i <= s@.len(),
            out@ == escape(s@.take(i as int)),
        decreases s@.len() - i,
    {
        let b = s[i];
        if b == SLASH || b == BACKSLASH {
            out.push(BACKSLASH);
            out.push(b);
        } else {
            out.push(b);
        }
        proof {
            let q = s@[i as int];
            assert(s@.take(i + 1) =~= s@.take(i as int) + seq![q]);
            lemma_escape_append(s@.take(i as int), seq![q]);
            assert(seq![q].skip(1) =~= Seq::<u8>::empty());
            assert(escape(Seq::<u8>::empty()) == Seq::<u8>::empty());
            assert(escape(seq![q]) =~= escape_byte(q));
            assert(out@ =~= escape(s@.take(i as int)) + escape_byte(q));
        }
        i = i + 1;
    }
    proof {
        assert(s@.take(s@.len() as int) =~= s@);
    }
    out
}

spec fn opt_prepend(p: Seq<u8>, t: Option<Seq<u8>>) -> Option<Seq<u8>> {
    match t {
        Some(q) => Some(p + q),
        None => None,
    }
}

/// Applies [`unescape`] to a byte slice.
pub fn unescape_bytes(s: &[u8]) -> (r: Option<Vec<u8>>)
    ensures
        match r {
            Some(v) => unescape(s@) == Some(v@),
            None => unescape(s@) is None,
        },
{
    let mut out: Vec<u8> = Vec::new();
    let mut i: usize = 0;
    proof {
        assert(s@.skip(0) =~= s@);
        if let Some(q) = unescape(s@) {
            assert(Seq::<u8>::empty() + q =~= q);
        }
    }
    while i < s.len()
        invariant
            i <= s@.len(),
            unescape(s@) == opt_prepend(out@, unescape(s@.skip(i as int))),
        decreases s@.len() - i,
    {
        let b = s[i];
        if b == BACKSLASH {
            if i + 1 >= s.len() {
                return None;
            }
            let c = s[i + 1];
            if c == BACKSLASH || c == SLASH {
                proof {
                    assert(s@.skip(i as int)[0] == BACKSLASH);
                    assert(s@.skip(i as int)[1] == c);
                    assert(s@.skip(i as int).skip(2) =~= s@.skip(i + 2));
                    assert(forall|t: Seq<u8>|
                        (out@ + seq![c]) + t =~= out@ + (seq![c] + t));
                }
                out.push(c);
                i = i + 2;
            } else {
                proof {
                    assert(s@.skip(i as int)[0] == BACKSLASH);
                }
                return None;
            }
        } else if b == SLASH {
            proof {
                assert(s@.skip(i as int)[0] == SLASH);
            }
            return None;
        } else {
            proof {
                assert(s@.skip(i as int)[0] == b);
                assert(s@.skip(i as int).skip(1) =~= s@.skip(i + 1));
                assert(forall|t: Seq<u8>| (out@ + seq![b]) + t =~= out@ + (seq![b] + t));
            }
            out.push(b);
            i = i + 1;
        }
    }
    proof {
        assert(s@.skip(s@.len() as int) =~= Seq::<u8>::empty());
        assert(out@ + Seq::<u8>::empty() =~= out@);
    }
    Some(out)
}

// ---------------------------------------------------------------------------
// Decimal numbers: POS and LENGTH fields.
// ---------------------------------------------------------------------------

pub open spec fn is_digit(b: u8) -> bool {
    48 <= b && b <= 57
}

pub open spec fn all_digits(s: Seq<u8>) -> bool {
    forall|i: int| 0 <= i < s.len() ==> is_digit(#[trigger] s[i])
}

/// The number a digit string denotes; leading zeroes are allowed.
pub open spec fn digits_val(s: Seq<u8>) -> int
    decreases s.len(),
{
    if s.len() == 0 {
        0
    } else {
        digits_val(s.drop_last()) * 10 + (s.last() - 48)
    }
}

/// The canonical decimal spelling of `n`, without leading zeroes.
pub open spec fn dec_rep(n: nat) -> Seq<u8>
    decreases n,
{
    if n < 10 {
        seq![(n + 48) as u8]
    } else {
        dec_rep(n / 10) + seq![(n % 10 + 48) as u8]
    }
}

pub proof fn lemma_dec_rep(n: nat)
    ensures
        all_digits(dec_rep(n)),
        dec_rep(n).len() >= 1,
        digits_val(dec_rep(n)) == n,
    decreases n,
{
    if n < 10 {
        let s = dec_rep(n);
        assert(s.drop_last() =~= Seq::<u8>::empty());
        assert(digits_val(Seq::<u8>::empty()) == 0);
        assert(digits_val(s) == (n + 48) as u8 - 48);
    } else {
        lemma_dec_rep(n / 10);
        let p = dec_rep(n / 10);
        let d = (n % 10 + 48) as u8;
        let s = dec_rep(n);
        assert(s.drop_last() =~= p);
        assert(s.last() == d);
        assert(digits_val(s) == digits_val(p) * 10 + (d - 48));
        assert(n == (n / 10) * 10 + n % 10);
        assert(forall|i: int| 0 <= i < s.len() ==> is_digit(#[trigger] s[i])) by {
            assert(forall|i: int| 0 <= i < p.len() ==> s[i] == #[trigger] p[i]);
        }
    }
}

pub proof fn lemma_digits_val_nonneg(s: Seq<u8>)
    requires
        all_digits(s),
    ensures
        digits_val(s) >= 0,
    decreases s.len(),
{
    if s.len() > 0 {
        assert(all_digits(s.drop_last())) by {
            assert(forall|i: int|
                0 <= i < s.len() - 1 ==> #[trigger] s.drop_last()[i] == s[i]);
        }
        lemma_digits_val_nonneg(s.drop_last());
    }
}

/// A digit string is worth at least any of its prefixes: once a prefix
/// overflows, the whole string does.
pub proof fn lemma_digits_val_take(s: Seq<u8>, i: int)
    requires
        all_digits(s),
        0 <= i <= s.len(),
    ensures
        digits_val(s.take(i)) <= digits_val(s),
    decreases s.len() - i,
{
    if i < s.len() {
        lemma_digits_val_take(s, i + 1);
        assert(s.take(i + 1).drop_last() =~= s.take(i));
        assert(s.take(i + 1).last() == s[i]);
        assert(all_digits(s.take(i))) by {
            assert(forall|j: int| 0 <= j < i ==> #[trigger] s.take(i)[j] == s[j]);
        }
        lemma_digits_val_nonneg(s.take(i));
        assert(digits_val(s.take(i + 1)) == digits_val(s.take(i)) * 10 + (s[i] - 48));
    } else {
        assert(s.take(i) =~= s);
    }
}

/// Prints `n` in decimal after the present contents of `out`.
pub fn push_decimal(out: &mut Vec<u8>, n: usize)
    ensures
        final(out)@ == old(out)@ + dec_rep(n as nat),
    decreases n,
{
    if n >= 10 {
        push_decimal(out, n / 10);
        let d: u8 = (n % 10) as u8 + 48;
        out.push(d);
        proof {
            assert(d == (n as nat % 10 + 48) as u8);
            assert((old(out)@ + dec_rep((n / 10) as nat)) + seq![d] =~= old(out)@ + dec_rep(
                n as nat,
            ));
        }
    } else {
        let d: u8 = n as u8 + 48;
        out.push(d);
        proof {
            assert(d == (n as nat + 48) as u8);
            assert(old(out)@ + seq![d] =~= old(out)@ + dec_rep(n as nat));
        }
    }
}

/// Reads a decimal field; `None` on an empty field, a non-digit byte, or
/// a value that does not fit in `usize`.
pub fn parse_decimal(s: &[u8]) -> (r: Option<usize>)
    ensures
        match r {
            Some(v) => all_digits(s@) && s@.len() >= 1 && digits_val(s@) == v,
            None => !(all_digits(s@) && s@.len() >= 1 && digits_val(s@) <= usize::MAX),
        },
{
    if s.len() == 0 {
        return None;
    }
    let mut val: usize = 0;
    let mut i: usize = 0;
    while i < s.len()
        invariant
            i <= s@.len(),
            all_digits(s@.take(i as int)),
            val == digits_val(s@.take(i as int)),
        decreases s@.len() - i,
    {
        let b = s[i];
        if b < 48 || b > 57 {
            return None;
        }
        let d: usize = (b - 48) as usize;
        proof {
            assert(s@.take(i + 1).drop_last() =~= s@.take(i as int));
            assert(s@.take(i + 1).last() == s@[i as int]);
            assert(forall|j: int|
                0 <= j < i + 1 ==> is_digit(#[trigger] s@.take(i + 1)[j]));
        }
        if val > usize::MAX / 10 || (val == usize::MAX / 10 && d > usize::MAX % 10) {
            proof {
                assert(usize::MAX == (usize::MAX / 10) * 10 + usize::MAX % 10);
                assert(digits_val(s@.take(i + 1)) > usize::MAX);
                if all_digits(s@) {
                    lemma_digits_val_take(s@, i + 1);
                }
            }
            return None;
        }
        proof {
            assert(usize::MAX == (usize::MAX / 10) * 10 + usize::MAX % 10);
        }
        val = val * 10 + d;
        i = i + 1;
    }
    proof {
        assert(s@.take(s@.len() as int) =~= s@);
    }
    Some(val)
}

// ---------------------------------------------------------------------------
// The four message kinds and their mathematical model.
// ---------------------------------------------------------------------------

/// The token a client chose on connect; it names one session for the
/// session's whole lifetime.
#[derive(PartialEq, Eq, Debug)]
pub struct Session(pub Vec<u8>);

impl View for Session {
    type V = Seq<u8>;

    open spec fn view(&self) -> Seq<u8> {
        self.0@
    }
}

/// Copies a byte slice into a fresh vector.
pub fn copy_bytes(v: &[u8]) -> (r: Vec<u8>)
    ensures
        r@ == v@,
{
    let mut out: Vec<u8> = Vec::new();
    out.extend_from_slice(v);
    proof {
        assert(out@ =~= v@);
    }
    out
}

impl Clone for Session {
    fn clone(&self) -> (r: Self)
        ensures
            r@ == self@,
    {
        Session(copy_bytes(self.0.as_slice()))
    }
}

#[derive(PartialEq, Eq, Debug)]
pub struct Data {
    pub session: Session,
    pub pos: usize,
    pub data: Vec<u8>,
}

#[derive(PartialEq, Eq, Debug)]
pub struct Ack {
    pub session: Session,
    pub len: usize,
}

#[derive(PartialEq, Eq, Debug)]
pub enum Message {
    Connect(Session),
    Data(Data),
    Ack(Ack),
    Close(Session),
}

pub struct SpecData {
    pub session: Seq<u8>,
    pub pos: int,
    pub data: Seq<u8>,
}

pub struct SpecAck {
    pub session: Seq<u8>,
    pub len: int,
}

pub enum SpecMessage {
    Connect(Seq<u8>),
    Data(SpecData),
    Ack(SpecAck),
    Close(Seq<u8>),
}

impl View for Data {
    type V = SpecData;

    open spec fn view(&self) -> SpecData {
        SpecData { session: self.session@, pos: self.pos as int, data: self.data@ }
    }
}

impl View for Ack {
    type V = SpecAck;

    open spec fn view(&self) -> SpecAck {
        SpecAck { session: self.session@, len: self.len as int }
    }
}

impl View for Message {
    type V = SpecMessage;

    open spec fn view(&self) -> SpecMessage {
        match self {
            Message::Connect(s) => SpecMessage::Connect(s@),
            Message::Data(d) => SpecMessage::Data(d@),
            Message::Ack(a) => SpecMessage::Ack(a@),
            Message::Close(s) => SpecMessage::Close(s@),
        }
    }
}

impl Clone for Data {
    fn clone(&self) -> (r: Self)
        ensures
            r@ == self@,
    {
        Data {
            session: self.session.clone(),
            pos: self.pos,
            data: copy_bytes(self.data.as_slice()),
        }
    }
}

impl Clone for Ack {
    fn clone(&self) -> (r: Self)
        ensures
            r@ == self@,
    {
        Ack { session: self.session.clone(), len: self.len }
    }
}

impl Clone for Message {
    fn clone(&self) -> (r: Self)
        ensures
            r@ == self@,
    {
        match self {
            Message::Connect(s) => Message::Connect(s.clone()),
            Message::Data(d) => Message::Data(d.clone()),
            Message::Ack(a) => Message::Ack(a.clone()),
            Message::Close(s) => Message::Close(s.clone()),
        }
    }
}

/// A session token may hold any byte but the field delimiter.
pub open spec fn valid_token(s: Seq<u8>) -> bool {
    forall|i: int| 0 <= i < s.len() ==> #[trigger] s[i] != SLASH
}

/// The messages the grammar can spell at all.
pub open spec fn msg_wf(m: SpecMessage) -> bool {
    match m {
        SpecMessage::Connect(s) => valid_token(s),
        SpecMessage::Data(d) => valid_token(d.session) && 0 <= d.pos <= usize::MAX,
        SpecMessage::Ack(a) => valid_token(a.session) && 0 <= a.len <= usize::MAX,
        SpecMessage::Close(s) => valid_token(s),
    }
}

pub open spec fn connect_token() -> Seq<u8> {
    seq!['c' as u8, 'o' as u8, 'n' as u8, 'n' as u8, 'e' as u8, 'c' as u8, 't' as u8]
}

pub open spec fn data_token() -> Seq<u8> {
    seq!['d' as u8, 'a' as u8, 't' as u8, 'a' as u8]
}

pub open spec fn ack_token() -> Seq<u8> {
    seq!['a' as u8, 'c' as u8, 'k' as u8]
}

pub open spec fn close_token() -> Seq<u8> {
    seq!['c' as u8, 'l' as u8, 'o' as u8, 's' as u8, 'e' as u8]
}

/// The exact bytes a message is sent as.
pub open spec fn spec_encode(m: SpecMessage) -> Seq<u8> {
    match m {
        SpecMessage::Connect(s) => seq![SLASH] + connect_token() + seq![SLASH] + s + seq![SLASH],
        SpecMessage::Data(d) => seq![SLASH] + data_token() + seq![SLASH] + d.session + seq![SLASH]
            + dec_rep(d.pos as nat) + seq![SLASH] + escape(d.data) + seq![SLASH],
        SpecMessage::Ack(a) => seq![SLASH] + ack_token() + seq![SLASH] + a.session + seq![SLASH]
            + dec_rep(a.len as nat) + seq![SLASH],
        SpecMessage::Close(s) => seq![SLASH] + close_token() + seq![SLASH] + s + seq![SLASH],
    }
}

fn push_connect_token(out: &mut Vec<u8>)
    ensures
        final(out)@ == old(out)@ + connect_token(),
{
    out.push('c' as u8);
    out.push('o' as u8);
    out.push('n' as u8);
    out.push('n' as u8);
    out.push('e' as u8);
    out.push('c' as u8);
    out.push('t' as u8);
    proof {
        assert(out@ =~= old(out)@ + connect_token());
    }
}

fn push_data_token(out: &mut Vec<u8>)
    ensures
        final(out)@ == old(out)@ + data_token(),
{
    out.push('d' as u8);
    out.push('a' as u8);
    out.push('t' as u8);
    out.push('a' as u8);
    proof {
        assert(out@ =~= old(out)@ + data_token());
    }
}

fn push_ack_token(out: &mut Vec<u8>)
    ensures
        final(out)@ == old(out)@ + ack_token(),
{
    out.push('a' as u8);
    out.push('c' as u8);
    out.push('k' as u8);
    proof {
        assert(out@ =~= old(out)@ + ack_token());
    }
}

fn push_close_token(out: &mut Vec<u8>)
    ensures
        final(out)@ == old(out)@ + close_token(),
{
    out.push('c' as u8);
    out.push('l' as u8);
    out.push('o' as u8);
    out.push('s' as u8);
    out.push('e' as u8);
    proof {
        assert(out@ =~= old(out)@ + close_token());
    }
}

// ---------------------------------------------------------------------------
// Searching and comparing byte fields.
// ---------------------------------------------------------------------------

/// Index of the first occurrence of `b` in `s`, or `s.len()` if absent.
pub open spec fn find(s: Seq<u8>, b: u8) -> int
    decreases s.len(),
{
    if s.len() == 0 {
        0
    } else if s[0] == b {
        0
    } else {
        1 + find(s.skip(1), b)
    }
}

/// What [`find`] points at: a real first occurrence, or the length
/// when the byte is absent.
pub proof fn lemma_find(s: Seq<u8>, b: u8)
    ensures
        0 <= find(s, b) <= s.len(),
        find(s, b) < s.len() ==> s[find(s, b)] == b,
        forall|i: int| 0 <= i < find(s, b) ==> s[i] != b,
    decreases s.len(),
{
    if s.len() > 0 && s[0] != b {
        lemma_find(s.skip(1), b);
        assert forall|i: int| 0 <= i < find(s, b) implies s[i] != b by {
            if i >= 1 {
                assert(s.skip(1)[i - 1] == s[i]);
            }
        }
        if find(s, b) < s.len() {
            assert(s[find(s, b)] == s.skip(1)[find(s.skip(1), b)]);
        }
    }
}

pub proof fn lemma_find_is(s: Seq<u8>, b: u8, k: int)
    requires
        0 <= k <= s.len(),
        k < s.len() ==> s[k] == b,
        forall|i: int| 0 <= i < k ==> s[i] != b,
    ensures
        find(s, b) == k,
    decreases s.len(),
{
    if s.len() == 0 {
    } else if s[0] == b {
        assert(k == 0);
    } else {
        assert(k >= 1);
        assert(forall|i: int| 0 <= i < k - 1 ==> #[trigger] s.skip(1)[i] == s[i + 1]);
        if k < s.len() {
            assert(s.skip(1)[k - 1] == s[k]);
        }
        lemma_find_is(s.skip(1), b, k - 1);
    }
}

/// First occurrence of `b` in `s`, as [`find`] describes it.
pub fn find_byte(s: &[u8], b: u8) -> (r: usize)
    ensures
        r == find(s@, b),
{
    let mut i: usize = 0;
    while i < s.len()
        invariant
            i <= s@.len(),
            forall|j: int| 0 <= j < i ==> s@[j] != b,
        decreases s@.len() - i,
    {
        if s[i] == b {
            proof {
                lemma_find_is(s@, b, i as int);
            }
            return i;
        }
        i = i + 1;
    }
    proof {
        lemma_find_is(s@, b, s@.len() as int);
    }
    s.len()
}

/// Byte-for-byte equality of two slices.
pub fn bytes_eq(a: &[u8], b: &[u8]) -> (r: bool)
    ensures
        r == (a@ == b@),
{
    if a.len() != b.len() {
        proof {
            assert(a@ != b@) by {
                if a@ == b@ {
                    assert(a@.len() == b@.len());
                }
            }
        }
        return false;
    }
    let mut i: usize = 0;
    while i < a.len()
        invariant
            i <= a@.len(),
            a@.len() == b@.len(),
            forall|j: int| 0 <= j < i ==> a@[j] == b@[j],
        decreases a@.len() - i,
    {
        if a[i] != b[i] {
            proof {
                assert(a@ != b@) by {
                    if a@ == b@ {
                        assert(a@[i as int] == b@[i as int]);
                    }
                }
            }
            return false;
        }
        i = i + 1;
    }
    proof {
        assert(a@ =~= b@);
    }
    true
}

fn connect_bytes() -> (r: Vec<u8>)
    ensures
        r@ == connect_token(),
{
    let mut out: Vec<u8> = Vec::new();
    push_connect_token(&mut out);
    proof {
        assert(Seq::<u8>::empty() + connect_token() =~= connect_token());
    }
    out
}

fn data_bytes() -> (r: Vec<u8>)
    ensures
        r@ == data_token(),
{
    let mut out: Vec<u8> = Vec::new();
    push_data_token(&mut out);
    proof {
        assert(Seq::<u8>::empty() + data_token() =~= data_token());
    }
    out
}

fn ack_bytes() -> (r: Vec<u8>)
    ensures
        r@ == ack_token(),
{
    let mut out: Vec<u8> = Vec::new();
    push_ack_token(&mut out);
    proof {
        assert(Seq::<u8>::empty() + ack_token() =~= ack_token());
    }
    out
}

fn close_bytes() -> (r: Vec<u8>)
    ensures
        r@ == close_token(),
{
    let mut out: Vec<u8> = Vec::new();
    push_close_token(&mut out);
    proof {
        assert(Seq::<u8>::empty() + close_token() =~= close_token());
    }
    out
}

// ---------------------------------------------------------------------------
// Decoding.
// ---------------------------------------------------------------------------

/// What a datagram decodes to. A datagram over 1000 bytes, one that is
/// not slash-framed, an unknown type, a bad number, a stray field or a
/// malformed escape all decode to `None` and are dropped without reply.
pub open spec fn spec_decode(bs: Seq<u8>) -> Option<SpecMessage> {
    if bs.len() > 1000 || bs.len() < 2 || bs[0] != SLASH || bs[bs.len() - 1] != SLASH {
        None
    } else {
        let mid = bs.subrange(1, bs.len() - 1);
        let t = find(mid, SLASH);
        if t == mid.len() {
            None
        } else {
            let token = mid.take(t);
            let rest = mid.skip(t + 1);
            if token == connect_token() {
                if valid_token(rest) {
                    Some(SpecMessage::Connect(rest))
                } else {
                    None
                }
            } else if token == close_token() {
                if valid_token(rest) {
                    Some(SpecMessage::Close(rest))
                } else {
                    None
                }
            } else if token == ack_token() {
                let u = find(rest, SLASH);
                if u == rest.len() {
                    None
                } else {
                    let sess = rest.take(u);
                    let digits = rest.skip(u + 1);
                    if all_digits(digits) && digits.len() >= 1 && digits_val(digits)
                        <= usize::MAX {
                        Some(SpecMessage::Ack(SpecAck { session: sess, len: digits_val(digits) }))
                    } else {
                        None
                    }
                }
            } else if token == data_token() {
                let u = find(rest, SLASH);
                if u == rest.len() {
                    None
                } else {
                    let sess = rest.take(u);
                    let rest2 = rest.skip(u + 1);
                    let v = find(rest2, SLASH);
                    if v == rest2.len() {
                        None
                    } else {
                        let digits = rest2.take(v);
                        let payload = rest2.skip(v + 1);
                        if all_digits(digits) && digits.len() >= 1 && digits_val(digits)
                            <= usize::MAX {
                            match unescape(payload) {
                                Some(d) => Some(
                                    SpecMessage::Data(
                                        SpecData {
                                            session: sess,
                                            pos: digits_val(digits),
                                            data: d,
                                        },
                                    ),
                                ),
                                None => None,
                            }
                        } else {
                            None
                        }
                    }
                }
            } else {
                None
            }
        }
    }
}

/// Round trip of the whole grammar: every well-formed message that fits
/// in a datagram decodes, from its own encoding, back to itself.
#[verifier::rlimit(60)]
pub proof fn lemma_decode_encode(m: SpecMessage)
    requires
        msg_wf(m),
        spec_encode(m).len() <= 1000,
    ensures
        spec_decode(spec_encode(m)) == Some(m),
{
    let e = spec_encode(m);
    assert(connect_token().len() == 7);
    assert(data_token().len() == 4);
    assert(ack_token().len() == 3);
    assert(close_token().len() == 5);
    match m {
        SpecMessage::Connect(s) => {
            assert(e[0] == SLASH);
            assert(e[e.len() - 1] == SLASH);
            let mid = e.subrange(1, e.len() - 1);
            assert(mid =~= connect_token() + seq![SLASH] + s);
            assert forall|i: int| 0 <= i < 7 implies mid[i] != SLASH by {
                assert(mid[i] == connect_token()[i]);
            }
            assert(mid[7] == SLASH);
            lemma_find_is(mid, SLASH, 7);
            assert(mid.take(7) =~= connect_token());
            assert(mid.skip(8) =~= s);
        },
        SpecMessage::Close(s) => {
            assert(e[0] == SLASH);
            assert(e[e.len() - 1] == SLASH);
            let mid = e.subrange(1, e.len() - 1);
            assert(mid =~= close_token() + seq![SLASH] + s);
            assert forall|i: int| 0 <= i < 5 implies mid[i] != SLASH by {
                assert(mid[i] == close_token()[i]);
            }
            assert(mid[5] == SLASH);
            lemma_find_is(mid, SLASH, 5);
            assert(mid.take(5) =~= close_token());
            assert(mid.skip(6) =~= s);
        },
        SpecMessage::Ack(a) => {
            let d = dec_rep(a.len as nat);
            lemma_dec_rep(a.len as nat);
            assert(e[0] == SLASH);
            assert(e[e.len() - 1] == SLASH);
            let mid = e.subrange(1, e.len() - 1);
            assert(mid =~= ack_token() + seq![SLASH] + a.session + seq![SLASH] + d);
            assert forall|i: int| 0 <= i < 3 implies mid[i] != SLASH by {
                assert(mid[i] == ack_token()[i]);
            }
            assert(mid[3] == SLASH);
            lemma_find_is(mid, SLASH, 3);
            assert(mid.take(3) =~= ack_token());
            let rest = mid.skip(4);
            assert(rest =~= a.session + seq![SLASH] + d);
            let sl = a.session.len() as int;
            assert forall|i: int| 0 <= i < sl implies rest[i] != SLASH by {
                assert(rest[i] == a.session[i]);
            }
            assert(rest[sl] == SLASH);
            lemma_find_is(rest, SLASH, sl);
            assert(rest.take(sl) =~= a.session);
            assert(rest.skip(sl + 1) =~= d);
        },
        SpecMessage::Data(dm) => {
            let d = dec_rep(dm.pos as nat);
            let esc = escape(dm.data);
            lemma_dec_rep(dm.pos as nat);
            lemma_unescape_escape(dm.data);
            assert(e[0] == SLASH);
            assert(e[e.len() - 1] == SLASH);
            let mid = e.subrange(1, e.len() - 1);
            assert(mid =~= data_token() + seq![SLASH] + dm.session + seq![SLASH] + d + seq![SLASH]
                + esc);
            assert forall|i: int| 0 <= i < 4 implies mid[i] != SLASH by {
                assert(mid[i] == data_token()[i]);
            }
            assert(mid[4] == SLASH);
            lemma_find_is(mid, SLASH, 4);
            assert(mid.take(4) =~= data_token());
            let rest = mid.skip(5);
            assert(rest =~= dm.session + seq![SLASH] + d + seq![SLASH] + esc);
            let sl = dm.session.len() as int;
            assert forall|i: int| 0 <= i < sl implies rest[i] != SLASH by {
                assert(rest[i] == dm.session[i]);
            }
            assert(rest[sl] == SLASH);
            lemma_find_is(rest, SLASH, sl);
            assert(rest.take(sl) =~= dm.session);
            let rest2 = rest.skip(sl + 1);
            assert(rest2 =~= d + seq![SLASH] + esc);
            let dl = d.len() as int;
            assert forall|i: int| 0 <= i < dl implies rest2[i] != SLASH by {
                assert(rest2[i] == d[i]);
                assert(is_digit(d[i]));
            }
            assert(rest2[dl] == SLASH);
            lemma_find_is(rest2, SLASH, dl);
            assert(rest2.take(dl) =~= d);
            assert(rest2.skip(dl + 1) =~= esc);
        },
    }
}

pub open spec fn opt_msg_view(r: Option<Message>) -> Option<SpecMessage> {
    match r {
        Some(m) => Some(m@),
        None => None,
    }
}

impl Message {
    /// Reads one datagram, exactly as [`spec_decode`] describes.
    pub fn decode(bs: &[u8]) -> (r: Option<Message>)
        ensures
            opt_msg_view(r) == spec_decode(bs@),
    {
        if bs.len() > 1000 || bs.len() < 2 {
            return None;
        }
        if bs[0] != SLASH || bs[bs.len() - 1] != SLASH {
            return None;
        }
        let mid = vstd::slice::slice_subrange(bs, 1, bs.len() - 1);
        let t = find_byte(mid, SLASH);
        proof {
            lemma_find(mid@, SLASH);
        }
        if t == mid.len() {
            return None;
        }
        let token = vstd::slice::slice_subrange(mid, 0, t);
        let rest = vstd::slice::slice_subrange(mid, t + 1, mid.len());
        proof {
            assert(token@ =~= mid@.take(t as int));
            assert(rest@ =~= mid@.skip(t + 1));
        }
        let ct = connect_bytes();
        let cl = close_bytes();
        if bytes_eq(token, ct.as_slice()) || bytes_eq(token, cl.as_slice()) {
            let is_connect = bytes_eq(token, ct.as_slice());
            let u = find_byte(rest, SLASH);
            proof {
                lemma_find(rest@, SLASH);
            }
            if u != rest.len() {
                proof {
                    assert(!valid_token(rest@));
                }
                return None;
            }
            proof {
                assert(valid_token(rest@));
            }
            let sess = Session(copy_bytes(rest));
            if is_connect {
                return Some(Message::Connect(sess));
            } else {
                return Some(Message::Close(sess));
            }
        }
        let ak = ack_bytes();
        if bytes_eq(token, ak.as_slice()) {
            let u = find_byte(rest, SLASH);
            proof {
                lemma_find(rest@, SLASH);
            }
            if u == rest.len() {
                return None;
            }
            let sess_b = vstd::slice::slice_subrange(rest, 0, u);
            let digits = vstd::slice::slice_subrange(rest, u + 1, rest.len());
            proof {
                assert(sess_b@ =~= rest@.take(u as int));
                assert(digits@ =~= rest@.skip(u + 1));
            }
            match parse_decimal(digits) {
                Some(v) => {
                    return Some(Message::Ack(Ack { session: Session(copy_bytes(sess_b)), len: v }));
                },
                None => {
                    return None;
                },
            }
        }
        let dt = data_bytes();
        if bytes_eq(token, dt.as_slice()) {
            let u = find_byte(rest, SLASH);
            proof {
                lemma_find(rest@, SLASH);
            }
            if u == rest.len() {
                return None;
            }
            let sess_b = vstd::slice::slice_subrange(rest, 0, u);
            let rest2 = vstd::slice::slice_subrange(rest, u + 1, rest.len());
            proof {
                assert(sess_b@ =~= rest@.take(u as int));
                assert(rest2@ =~= rest@.skip(u + 1));
            }
            let v = find_byte(rest2, SLASH);
            proof {
                lemma_find(rest2@, SLASH);
            }
            if v == rest2.len() {
                return None;
            }
            let digits = vstd::slice::slice_subrange(rest2, 0, v);
            let payload = vstd::slice::slice_subrange(rest2, v + 1, rest2.len());
            proof {
                assert(digits@ =~= rest2@.take(v as int));
                assert(payload@ =~= rest2@.skip(v + 1));
            }
            let pos = match parse_decimal(digits) {
                Some(p) => p,
                None => {
                    return None;
                },
            };
            match unescape_bytes(payload) {
                Some(d) => {
                    return Some(
                        Message::Data(Data { session: Session(copy_bytes(sess_b)), pos, data: d }),
                    );
                },
                None => {
                    return None;
                },
            }
        }
        None
    }

    /// Spells the message out as wire bytes.
    pub fn encode(&self) -> (r: Vec<u8>)
        ensures
            r@ == spec_encode(self@),
    {
        let mut out: Vec<u8> = Vec::new();
        out.push(SLASH);
        match self {
            Message::Connect(s) => {
                push_connect_token(&mut out);
                out.push(SLASH);
                out.extend_from_slice(s.0.as_slice());
                out.push(SLASH);
                proof {
                    assert(out@ =~= spec_encode(self@));
                }
            },
            Message::Data(d) => {
                push_data_token(&mut out);
                out.push(SLASH);
                out.extend_from_slice(d.session.0.as_slice());
                out.push(SLASH);
                push_decimal(&mut out, d.pos);
                out.push(SLASH);
                let esc = escape_bytes(d.data.as_slice());
                out.extend_from_slice(esc.as_slice());
                out.push(SLASH);
                proof {
                    assert(out@ =~= spec_encode(self@));
                }
            },
            Message::Ack(a) => {
                push_ack_token(&mut out);
                out.push(SLASH);
                out.extend_from_slice(a.session.0.as_slice());
                out.push(SLASH);
                push_decimal(&mut out, a.len);
                out.push(SLASH);
                proof {
                    assert(out@ =~= spec_encode(self@));
                }
            },
            Message::Close(s) => {
                push_close_token(&mut out);
                out.push(SLASH);
                out.extend_from_slice(s.0.as_slice());
                out.push(SLASH);
                proof {
                    assert(out@ =~= spec_encode(self@));
                }
            },
        }
        out
    }
}

} // verus!
