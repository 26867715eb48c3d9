//! Commands of the versioned file store and the names they may use.
//!
//! A usable path starts at the root, never doubles its separator, and
//! stays clear of the punctuation the store refuses; a file name
//! additionally must not end in a separator. A command that cannot be
//! read is answered with the usage line of the verb it started with.

use vstd::prelude::*;
use vstd::string::StringSliceAdditionalSpecFns;
use crate::codec::NEWLINE;
use crate::codec::SLASH;
use crate::codec::copy_bytes;
use crate::codec::digits_val;
use crate::codec::is_digit;
use crate::codec::parse_decimal;

verus! {

/// How a command can be refused: each verb has its usage line.
#[derive(Debug, PartialEq, Eq, Clone)]
pub enum Error {
    Put,
    Get,
    List,
}

impl Error {
    /// The usage line sent to the peer.
    pub fn message(&self) -> (r: Vec<u8>)
        ensures
            self matches Error::Put ==> r@ == "ERR usage: PUT file length newline data\n".spec_bytes(),
            self matches Error::Get ==> r@ == "ERR usage: GET file rev\n".spec_bytes(),
            self matches Error::List ==> r@ == "ERR usage: LIST dir\n".spec_bytes(),
    {
        match self {
            Error::Put => copy_bytes("ERR usage: PUT file length newline data\n".as_bytes()),
            Error::Get => copy_bytes("ERR usage: GET file rev\n".as_bytes()),
            Error::List => copy_bytes("ERR usage: LIST dir\n".as_bytes()),
        }
    }
}

/// A parsed command: store a file of a given length, fetch a revision,
/// list a directory, ask for help, or a verb whose arguments could not
/// be read.
#[derive(Debug, PartialEq, Eq, Clone)]
pub enum Op {
    Put(Vec<u8>, usize),
    Get(Vec<u8>, usize),
    List(Vec<u8>),
    Help,
    Invalid(Error),
}

/// The punctuation the store refuses in names.
pub open spec fn is_forbidden(b: u8) -> bool {
    ||| b == '=' as u8
    ||| b == '@' as u8
    ||| b == '{' as u8
    ||| b == ')' as u8
    ||| b == '|' as u8
    ||| b == 39
    ||| b == '%' as u8
    ||| b == '*' as u8
    ||| b == '&' as u8
    ||| b == ']' as u8
    ||| b == '[' as u8
    ||| b == '?' as u8
    ||| b == '#' as u8
    ||| b == '(' as u8
    ||| b == '+' as u8
    ||| b == '}' as u8
    ||| b == '~' as u8
    ||| b == '$' as u8
    ||| b == '"' as u8
    ||| b == '!' as u8
    ||| b == '^' as u8
    ||| b == '`' as u8
}

pub open spec fn clean_name(s: Seq<u8>) -> bool {
    &&& forall|i: int| 0 <= i < s.len() ==> !is_forbidden(#[trigger] s[i])
    &&& forall|i: int| 0 <= i < s.len() - 1 ==> !(#[trigger] s[i] == SLASH && s[i + 1] == SLASH)
}

/// A file name: rooted, clean, and not ending in a separator.
pub open spec fn spec_valid_filename(s: Seq<u8>) -> bool {
    &&& s.len() >= 1
    &&& s[0] == SLASH
    &&& s[s.len() - 1] != SLASH
    &&& clean_name(s)
}

/// A directory name: rooted and clean; the root itself is allowed.
pub open spec fn spec_valid_dirname(s: Seq<u8>) -> bool {
    &&& s.len() >= 1
    &&& s[0] == SLASH
    &&& clean_name(s)
}

fn byte_forbidden(b: u8) -> (r: bool)
    ensures
        r == is_forbidden(b),
{
    b == '=' as u8 || b == '@' as u8 || b == '{' as u8 || b == ')' as u8 || b == '|' as u8 || b
        == 39 || b == '%' as u8 || b == '*' as u8 || b == '&' as u8 || b == ']' as u8 || b
        == '[' as u8 || b == '?' as u8 || b == '#' as u8 || b == '(' as u8 || b == '+' as u8
        || b == '}' as u8 || b == '~' as u8 || b == '$' as u8 || b == '"' as u8 || b
        == '!' as u8 || b == '^' as u8 || b == '`' as u8
}

fn name_clean(b: &[u8]) -> (r: bool)
    ensures
        r == clean_name(b@),
{
    let mut i: usize = 0;
    while i < b.len()
        invariant
            i <= b@.len(),
            forall|j: int| 0 <= j < i ==> !is_forbidden(#[trigger] b@[j]),
            forall|j: int|
                0 <= j < i - 1 ==> !(#[trigger] b@[j] == SLASH && b@[j + 1] == SLASH),
        decreases b@.len() - i,
    {
        if byte_forbidden(b[i]) {
            return false;
        }
        if i > 0 && b[i] == SLASH && b[i - 1] == SLASH {
            return false;
        }
        i = i + 1;
    }
    true
}

/// Decides [`spec_valid_filename`].
pub fn is_valid_filename(b: &[u8]) -> (r: bool)
    ensures
        r == spec_valid_filename(b@),
{
    if b.len() == 0 {
        return false;
    }
    if b[0] != SLASH {
        return false;
    }
    if b[b.len() - 1] == SLASH {
        return false;
    }
    name_clean(b)
}

/// Decides [`spec_valid_dirname`].
pub fn is_valid_dirname(b: &[u8]) -> (r: bool)
    ensures
        r == spec_valid_dirname(b@),
{
    if b.len() == 0 {
        return false;
    }
    if b[0] != SLASH {
        return false;
    }
    name_clean(b)
}

// ---------------------------------------------------------------------------
// The command grammar.
// ---------------------------------------------------------------------------

/// Index of the first byte satisfying `p`, or `s.len()`.
pub open spec fn find_if(s: Seq<u8>, p: spec_fn(u8) -> bool) -> int
    decreases s.len(),
{
    if s.len() == 0 {
        0
    } else if p(s[0]) {
        0
    } else {
        1 + find_if(s.skip(1), p)
    }
}

pub proof fn lemma_find_if(s: Seq<u8>, p: spec_fn(u8) -> bool)
    ensures
        0 <= find_if(s, p) <= s.len(),
        find_if(s, p) < s.len() ==> p(s[find_if(s, p)]),
        forall|i: int| 0 <= i < find_if(s, p) ==> !p(#[trigger] s[i]),
    decreases s.len(),
{
    if s.len() > 0 && !p(s[0]) {
        lemma_find_if(s.skip(1), p);
        let f = find_if(s, p);
        assert forall|i: int| 0 <= i < f implies !p(#[trigger] s[i]) by {
            if i >= 1 {
                assert(s.skip(1)[i - 1] == s[i]);
            }
        }
        if f < s.len() {
            assert(s[f] == s.skip(1)[find_if(s.skip(1), p)]);
        }
    }
}

proof fn lemma_find_if_is(s: Seq<u8>, p: spec_fn(u8) -> bool, k: int)
    requires
        0 <= k <= s.len(),
        k < s.len() ==> p(s[k]),
        forall|i: int| 0 <= i < k ==> !p(#[trigger] s[i]),
    ensures
        find_if(s, p) == k,
    decreases s.len(),
{
    if s.len() == 0 {
    } else if p(s[0]) {
        assert(k == 0);
    } else {
        assert(k >= 1);
        assert(forall|i: int| 0 <= i < k - 1 ==> #[trigger] s.skip(1)[i] == s[i + 1]);
        if k < s.len() {
            assert(s.skip(1)[k - 1] == s[k]);
        }
        lemma_find_if_is(s.skip(1), p, k - 1);
    }
}

/// A blank as the verb grammar counts them: space or tab.
pub open spec fn is_blank(b: u8) -> bool {
    b == 32 || b == 9
}

/// How a byte is read for the case-insensitive verbs.
pub open spec fn upper(b: u8) -> u8 {
    if 97 <= b && b <= 122 {
        (b - 32) as u8
    } else {
        b
    }
}

/// The verb `w` stands at `i`, in any case.
pub open spec fn verb_at(s: Seq<u8>, i: int, w: Seq<u8>) -> bool {
    &&& i + w.len() <= s.len()
    &&& forall|k: int| 0 <= k < w.len() ==> upper(s[i + k]) == #[trigger] w[k]
}

pub open spec fn put_verb() -> Seq<u8> {
    seq!['P' as u8, 'U' as u8, 'T' as u8]
}

pub open spec fn get_verb() -> Seq<u8> {
    seq!['G' as u8, 'E' as u8, 'T' as u8]
}

pub open spec fn list_verb() -> Seq<u8> {
    seq!['L' as u8, 'I' as u8, 'S' as u8, 'T' as u8]
}

pub open spec fn help_verb() -> Seq<u8> {
    seq!['H' as u8, 'E' as u8, 'L' as u8, 'P' as u8]
}

/// The mathematical shadow of [`Op`].
pub enum OpView {
    Put(Seq<u8>, int),
    Get(Seq<u8>, int),
    List(Seq<u8>),
    Help,
    Invalid(Error),
}

impl View for Op {
    type V = OpView;

    open spec fn view(&self) -> OpView {
        match self {
            Op::Put(p, n) => OpView::Put(p@, *n as int),
            Op::Get(p, n) => OpView::Get(p@, *n as int),
            Op::List(p) => OpView::List(p@),
            Op::Help => OpView::Help,
            Op::Invalid(e) => OpView::Invalid(*e),
        }
    }
}

/// What a PUT line means once the verb matched; anything short of the
/// full shape falls back to the usage error.
pub open spec fn spec_parse_put(s: Seq<u8>) -> OpView {
    let sp1 = find_if(s.skip(3), |b: u8| !is_blank(b));
    if sp1 == 0 {
        OpView::Invalid(Error::Put)
    } else {
        let a = 3 + sp1;
        let fl = find_if(s.skip(a), |b: u8| is_blank(b));
        let fname = s.subrange(a, a + fl);
        if !spec_valid_filename(fname) {
            OpView::Invalid(Error::Put)
        } else {
            let sp2 = find_if(s.skip(a + fl), |b: u8| !is_blank(b));
            if sp2 == 0 {
                OpView::Invalid(Error::Put)
            } else {
                let c = a + fl + sp2;
                let dl = find_if(s.skip(c), |b: u8| !is_digit(b));
                let digits = s.subrange(c, c + dl);
                if dl == 0 || digits_val(digits) > usize::MAX {
                    OpView::Invalid(Error::Put)
                } else if c + dl >= s.len() || s[c + dl] != NEWLINE {
                    OpView::Invalid(Error::Put)
                } else {
                    OpView::Put(fname, digits_val(digits))
                }
            }
        }
    }
}

/// A GET line: file name, then a newline for the head revision or
/// `r` and a revision number.
pub open spec fn spec_parse_get(s: Seq<u8>) -> OpView {
    let sp1 = find_if(s.skip(3), |b: u8| !is_blank(b));
    if sp1 == 0 {
        OpView::Invalid(Error::Get)
    } else {
        let a = 3 + sp1;
        let fl = find_if(s.skip(a), |b: u8| b == 32 || b == NEWLINE);
        let fname = s.subrange(a, a + fl);
        if fl == 0 || !spec_valid_filename(fname) {
            OpView::Invalid(Error::Get)
        } else {
            let b = a + fl + find_if(s.skip(a + fl), |b: u8| !is_blank(b));
            if b < s.len() && s[b] == NEWLINE {
                OpView::Get(fname, usize::MAX as int)
            } else if b < s.len() && upper(s[b]) == 'R' as u8 {
                let dl = find_if(s.skip(b + 1), |b: u8| !is_digit(b));
                let digits = s.subrange(b + 1, b + 1 + dl);
                if dl == 0 || digits_val(digits) > usize::MAX {
                    OpView::Invalid(Error::Get)
                } else {
                    OpView::Get(fname, digits_val(digits))
                }
            } else {
                OpView::Invalid(Error::Get)
            }
        }
    }
}

/// A LIST line: a directory name up to the newline.
pub open spec fn spec_parse_list(s: Seq<u8>) -> OpView {
    let sp1 = find_if(s.skip(4), |b: u8| !is_blank(b));
    if sp1 == 0 {
        OpView::Invalid(Error::List)
    } else {
        let a = 4 + sp1;
        let dl = find_if(s.skip(a), |b: u8| b == NEWLINE);
        let dname = s.subrange(a, a + dl);
        if !spec_valid_dirname(dname) {
            OpView::Invalid(Error::List)
        } else if a + dl >= s.len() {
            OpView::Invalid(Error::List)
        } else {
            OpView::List(dname)
        }
    }
}

/// What one command line parses to: a command, a usage error for a verb
/// whose arguments failed, or nothing for a line no verb starts.
pub open spec fn spec_parse_cmd(s: Seq<u8>) -> Option<OpView> {
    if verb_at(s, 0, put_verb()) {
        Some(spec_parse_put(s))
    } else if verb_at(s, 0, get_verb()) {
        Some(spec_parse_get(s))
    } else if verb_at(s, 0, list_verb()) {
        Some(spec_parse_list(s))
    } else if verb_at(s, 0, help_verb()) {
        Some(OpView::Help)
    } else {
        None
    }
}

pub open spec fn opt_op_view(r: Option<Op>) -> Option<OpView> {
    match r {
        Some(op) => Some(op@),
        None => None,
    }
}

fn upper_byte(b: u8) -> (r: u8)
    ensures
        r == upper(b),
{
    if 97 <= b && b <= 122 {
        b - 32
    } else {
        b
    }
}

fn scan_blanks(s: &[u8], from: usize) -> (r: usize)
    requires
        from <= s@.len(),
    ensures
        from <= r <= s@.len(),
        r - from == find_if(s@.skip(from as int), |b: u8| !is_blank(b)),
    decreases s@.len() - from,
{
    let mut i = from;
    while i < s.len()
        invariant
            from <= i <= s@.len(),
            forall|j: int| from <= j < i ==> is_blank(#[trigger] s@[j]),
        decreases s@.len() - i,
    {
        let b = s[i];
        if !(b == 32 || b == 9) {
            proof {
                assert(s@.skip(from as int)[i - from] == s@[i as int]);
                assert(forall|j: int|
                    0 <= j < i - from ==> #[trigger] s@.skip(from as int)[j] == s@[
                        from + j
                    ]);
                lemma_find_if_is(
                    s@.skip(from as int),
                    |b: u8| !is_blank(b),
                    i - from as int,
                );
            }
            return i;
        }
        i = i + 1;
    }
    proof {
        assert(forall|j: int|
            0 <= j < i - from ==> #[trigger] s@.skip(from as int)[j] == s@[from + j]);
        lemma_find_if_is(s@.skip(from as int), |b: u8| !is_blank(b), i - from as int);
    }
    i
}

fn scan_until_blank(s: &[u8], from: usize) -> (r: usize)
    requires
        from <= s@.len(),
    ensures
        from <= r <= s@.len(),
        r - from == find_if(s@.skip(from as int), |b: u8| is_blank(b)),
    decreases s@.len() - from,
{
    let mut i = from;
    while i < s.len()
        invariant
            from <= i <= s@.len(),
            forall|j: int| from <= j < i ==> !is_blank(#[trigger] s@[j]),
        decreases s@.len() - i,
    {
        let b = s[i];
        if b == 32 || b == 9 {
            proof {
                assert(s@.skip(from as int)[i - from] == s@[i as int]);
                assert(forall|j: int|
                    0 <= j < i - from ==> #[trigger] s@.skip(from as int)[j] == s@[
                        from + j
                    ]);
                lemma_find_if_is(s@.skip(from as int), |b: u8| is_blank(b), i - from as int);
            }
            return i;
        }
        i = i + 1;
    }
    proof {
        assert(forall|j: int|
            0 <= j < i - from ==> #[trigger] s@.skip(from as int)[j] == s@[from + j]);
        lemma_find_if_is(s@.skip(from as int), |b: u8| is_blank(b), i - from as int);
    }
    i
}

fn scan_until_sp_nl(s: &[u8], from: usize) -> (r: usize)
    requires
        from <= s@.len(),
    ensures
        from <= r <= s@.len(),
        r - from == find_if(s@.skip(from as int), |b: u8| b == 32 || b == NEWLINE),
    decreases s@.len() - from,
{
    let mut i = from;
    while i < s.len()
        invariant
            from <= i <= s@.len(),
            forall|j: int|
                from <= j < i ==> !(#[trigger] s@[j] == 32 || s@[j] == NEWLINE),
        decreases s@.len() - i,
    {
        let b = s[i];
        if b == 32 || b == NEWLINE {
            proof {
                assert(s@.skip(from as int)[i - from] == s@[i as int]);
                assert(forall|j: int|
                    0 <= j < i - from ==> #[trigger] s@.skip(from as int)[j] == s@[
                        from + j
                    ]);
                lemma_find_if_is(
                    s@.skip(from as int),
                    |b: u8| b == 32 || b == NEWLINE,
                    i - from as int,
                );
            }
            return i;
        }
        i = i + 1;
    }
    proof {
        assert(forall|j: int|
            0 <= j < i - from ==> #[trigger] s@.skip(from as int)[j] == s@[from + j]);
        lemma_find_if_is(
            s@.skip(from as int),
            |b: u8| b == 32 || b == NEWLINE,
            i - from as int,
        );
    }
    i
}

fn scan_digits(s: &[u8], from: usize) -> (r: usize)
    requires
        from <= s@.len(),
    ensures
        from <= r <= s@.len(),
        r - from == find_if(s@.skip(from as int), |b: u8| !is_digit(b)),
    decreases s@.len() - from,
{
    let mut i = from;
    while i < s.len()
        invariant
            from <= i <= s@.len(),
            forall|j: int| from <= j < i ==> is_digit(#[trigger] s@[j]),
        decreases s@.len() - i,
    {
        let b = s[i];
        if !(48 <= b && b <= 57) {
            proof {
                assert(s@.skip(from as int)[i - from] == s@[i as int]);
                assert(forall|j: int|
                    0 <= j < i - from ==> #[trigger] s@.skip(from as int)[j] == s@[
                        from + j
                    ]);
                lemma_find_if_is(s@.skip(from as int), |b: u8| !is_digit(b), i - from as int);
            }
            return i;
        }
        i = i + 1;
    }
    proof {
        assert(forall|j: int|
            0 <= j < i - from ==> #[trigger] s@.skip(from as int)[j] == s@[from + j]);
        lemma_find_if_is(s@.skip(from as int), |b: u8| !is_digit(b), i - from as int);
    }
    i
}

fn scan_until_nl(s: &[u8], from: usize) -> (r: usize)
    requires
        from <= s@.len(),
    ensures
        from <= r <= s@.len(),
        r - from == find_if(s@.skip(from as int), |b: u8| b == NEWLINE),
    decreases s@.len() - from,
{
    let mut i = from;
    while i < s.len()
        invariant
            from <= i <= s@.len(),
            forall|j: int| from <= j < i ==> #[trigger] s@[j] != NEWLINE,
        decreases s@.len() - i,
    {
        let b = s[i];
        if b == NEWLINE {
            proof {
                assert(s@.skip(from as int)[i - from] == s@[i as int]);
                assert(forall|j: int|
                    0 <= j < i - from ==> #[trigger] s@.skip(from as int)[j] == s@[
                        from + j
                    ]);
                lemma_find_if_is(s@.skip(from as int), |b: u8| b == NEWLINE, i - from as int);
            }
            return i;
        }
        i = i + 1;
    }
    proof {
        assert(forall|j: int|
            0 <= j < i - from ==> #[trigger] s@.skip(from as int)[j] == s@[from + j]);
        lemma_find_if_is(s@.skip(from as int), |b: u8| b == NEWLINE, i - from as int);
    }
    i
}

fn verb_matches(s: &[u8], w: &[u8]) -> (r: bool)
    ensures
        ({
            let wv = Seq::new(w@.len(), |k: int| upper(w@[k]));
            r == verb_at(s@, 0, wv)
        }),
{
    let ghost wv = Seq::new(w@.len(), |k: int| upper(w@[k]));
    if s.len() < w.len() {
        return false;
    }
    let mut k: usize = 0;
    while k < w.len()
        invariant
            wv == Seq::new(w@.len(), |k: int| upper(w@[k])),
            k <= w@.len(),
            w@.len() <= s@.len(),
            forall|j: int| 0 <= j < k ==> upper(s@[j]) == upper(#[trigger] w@[j]),
        decreases w@.len() - k,
    {
        if upper_byte(s[k]) != upper_byte(w[k]) {
            proof {
                assert(!verb_at(s@, 0, wv)) by {
                    if verb_at(s@, 0, wv) {
                        assert(upper(s@[k as int]) == wv[k as int]);
                    }
                }
            }
            return false;
        }
        k = k + 1;
    }
    proof {
        assert(forall|j: int| 0 <= j < wv.len() ==> upper(s@[j]) == #[trigger] wv[j]);
    }
    true
}

/// Reads one command line, exactly as [`spec_parse_cmd`] says; `None`
/// is for a line no verb starts, answered with a bare error.
#[verifier::rlimit(60)]
pub fn parse(input: &[u8]) -> (r: Option<Op>)
    ensures
        opt_op_view(r) == spec_parse_cmd(input@),
{
    if verb_matches(input, &['P' as u8, 'U' as u8, 'T' as u8]) {
        proof {
            assert(Seq::new(3, |k: int| upper(seq!['P' as u8, 'U' as u8, 'T' as u8][k]))
                =~= put_verb());
        }
        let a = scan_blanks(input, 3);
        if a == 3 {
            return Some(Op::Invalid(Error::Put));
        }
        let fe = scan_until_blank(input, a);
        let fname = vstd::slice::slice_subrange(input, a, fe);
        proof {
            assert(fname@ =~= input@.subrange(a as int, fe as int));
        }
        if !is_valid_filename(fname) {
            return Some(Op::Invalid(Error::Put));
        }
        let c = scan_blanks(input, fe);
        if c == fe {
            return Some(Op::Invalid(Error::Put));
        }
        let de = scan_digits(input, c);
        let digits = vstd::slice::slice_subrange(input, c, de);
        proof {
            assert(digits@ =~= input@.subrange(c as int, de as int));
            lemma_find_if(input@.skip(c as int), |b: u8| !is_digit(b));
            assert forall|j: int| 0 <= j < digits@.len() implies is_digit(
                #[trigger] digits@[j],
            ) by {
                assert(digits@[j] == input@.skip(c as int)[j]);
            }
        }
        let n = match parse_decimal(digits) {
            Some(n) => n,
            None => {
                return Some(Op::Invalid(Error::Put));
            },
        };
        if de == c {
            return Some(Op::Invalid(Error::Put));
        }
        if de >= input.len() || input[de] != NEWLINE {
            return Some(Op::Invalid(Error::Put));
        }
        Some(Op::Put(copy_bytes(fname), n))
    } else if verb_matches(input, &['G' as u8, 'E' as u8, 'T' as u8]) {
        proof {
            assert(Seq::new(3, |k: int| upper(seq!['G' as u8, 'E' as u8, 'T' as u8][k]))
                =~= get_verb());
        }
        let a = scan_blanks(input, 3);
        if a == 3 {
            return Some(Op::Invalid(Error::Get));
        }
        let fe = scan_until_sp_nl(input, a);
        let fname = vstd::slice::slice_subrange(input, a, fe);
        proof {
            assert(fname@ =~= input@.subrange(a as int, fe as int));
        }
        if fe == a || !is_valid_filename(fname) {
            return Some(Op::Invalid(Error::Get));
        }
        let b = scan_blanks(input, fe);
        if b < input.len() && input[b] == NEWLINE {
            return Some(Op::Get(copy_bytes(fname), usize::MAX));
        }
        if b < input.len() && upper_byte(input[b]) == 'R' as u8 {
            let de = scan_digits(input, b + 1);
            let digits = vstd::slice::slice_subrange(input, b + 1, de);
            proof {
                assert(digits@ =~= input@.subrange(b + 1, de as int));
                lemma_find_if(input@.skip(b + 1), |b: u8| !is_digit(b));
                assert forall|j: int| 0 <= j < digits@.len() implies is_digit(
                    #[trigger] digits@[j],
                ) by {
                    assert(digits@[j] == input@.skip(b + 1)[j]);
                }
            }
            let n = match parse_decimal(digits) {
                Some(n) => n,
                None => {
                    return Some(Op::Invalid(Error::Get));
                },
            };
            if de == b + 1 {
                return Some(Op::Invalid(Error::Get));
            }
            return Some(Op::Get(copy_bytes(fname), n));
        }
        Some(Op::Invalid(Error::Get))
    } else if verb_matches(input, &['L' as u8, 'I' as u8, 'S' as u8, 'T' as u8]) {
        proof {
            assert(Seq::new(
                4,
                |k: int| upper(seq!['L' as u8, 'I' as u8, 'S' as u8, 'T' as u8][k]),
            ) =~= list_verb());
        }
        let a = scan_blanks(input, 4);
        if a == 4 {
            return Some(Op::Invalid(Error::List));
        }
        let de = scan_until_nl(input, a);
        let dname = vstd::slice::slice_subrange(input, a, de);
        proof {
            assert(dname@ =~= input@.subrange(a as int, de as int));
        }
        if !is_valid_dirname(dname) {
            return Some(Op::Invalid(Error::List));
        }
        if de >= input.len() {
            return Some(Op::Invalid(Error::List));
        }
        Some(Op::List(copy_bytes(dname)))
    } else if verb_matches(input, &['H' as u8, 'E' as u8, 'L' as u8, 'P' as u8]) {
        proof {
            assert(Seq::new(
                4,
                |k: int| upper(seq!['H' as u8, 'E' as u8, 'L' as u8, 'P' as u8][k]),
            ) =~= help_verb());
        }
        Some(Op::Help)
    } else {
        proof {
            assert(Seq::new(3, |k: int| upper(seq!['P' as u8, 'U' as u8, 'T' as u8][k]))
                =~= put_verb());
            assert(Seq::new(3, |k: int| upper(seq!['G' as u8, 'E' as u8, 'T' as u8][k]))
                =~= get_verb());
            assert(Seq::new(
                4,
                |k: int| upper(seq!['L' as u8, 'I' as u8, 'S' as u8, 'T' as u8][k]),
            ) =~= list_verb());
            assert(Seq::new(
                4,
                |k: int| upper(seq!['H' as u8, 'E' as u8, 'L' as u8, 'P' as u8][k]),
            ) =~= help_verb());
        }
        None
    }
}

} // verus!
