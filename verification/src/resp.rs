//! The RESP wire codec: a streaming decoder from bytes to framed values
//! and an emitter from values to bytes.
//!
//! The wire grammar is stated once, at the specification level
//! (`encode_frame`, `spec_decode_at`); the executable decoder is proved to
//! return exactly what the specification-level decoder reads. Short input
//! is never an error: the decoder answers `More` and the caller retries
//! with a longer buffer.

use vstd::prelude::*;

use crate::digits::all_digits;
use crate::digits::dec_rep;
use crate::digits::dec_val;
use crate::digits::is_digit;
use crate::digits::lemma_dec_val_prefix;
use crate::digits::u64_to_dec;

verus! {

/// Upper bound accepted for a bulk-string length or an array element
/// count; a larger prefix is refused as `MessageTooBig`.
pub const MAX_MESSAGE_SIZE: u64 = 512 * 1024 * 1024;

/// One complete top-level RESP value.
///
/// Client requests are arrays of bulk strings; replies also use simple
/// strings, errors and the nil bulk string. Integer values are carried as
/// their raw digit bytes: nothing in this core consumes them.
#[derive(Debug)]
pub enum Frame {
    Simple(Vec<u8>),
    Error(Vec<u8>),
    Integer(Vec<u8>),
    Bulk(Vec<u8>),
    Nil,
    Array(Vec<Vec<u8>>),
}

/// The mathematical value of a [`Frame`].
pub ghost enum FrameV {
    Simple(Seq<u8>),
    Error(Seq<u8>),
    Integer(Seq<u8>),
    Bulk(Seq<u8>),
    Nil,
    Array(Seq<Seq<u8>>),
}

/// The element-wise view of a vector of byte strings.
pub open spec fn bytes_view(v: Seq<Vec<u8>>) -> Seq<Seq<u8>> {
    Seq::new(v.len(), |i: int| v[i]@)
}

impl View for Frame {
    type V = FrameV;

    open spec fn view(&self) -> FrameV {
        match self {
            Frame::Simple(p) => FrameV::Simple(p@),
            Frame::Error(p) => FrameV::Error(p@),
            Frame::Integer(p) => FrameV::Integer(p@),
            Frame::Bulk(p) => FrameV::Bulk(p@),
            Frame::Nil => FrameV::Nil,
            Frame::Array(els) => FrameV::Array(bytes_view(els@)),
        }
    }
}

/// Decoder failures. Anything else the decoder reports is `More`: the
/// buffer holds no complete value yet and the caller must extend it.
#[derive(Debug)]
pub enum ResponseErrors {
    /// A length prefix exceeds [`MAX_MESSAGE_SIZE`].
    MessageTooBig,
    /// The leading byte of a value is none of `* $ + - :`, or an array
    /// element is not a bulk string.
    UnhandledRespDataType(char),
    /// An array count header is not a non-negative integer.
    ArrayNumElementsInvalidLength(Vec<u8>),
    /// A bulk-string length header is not a non-negative integer.
    BulkStringInvalidLength(Vec<u8>),
}

/// The mathematical value of a [`ResponseErrors`].
pub ghost enum RespErrV {
    MessageTooBig,
    UnhandledRespDataType(char),
    ArrayNumElementsInvalidLength(Seq<u8>),
    BulkStringInvalidLength(Seq<u8>),
}

impl View for ResponseErrors {
    type V = RespErrV;

    open spec fn view(&self) -> RespErrV {
        match self {
            ResponseErrors::MessageTooBig => RespErrV::MessageTooBig,
            ResponseErrors::UnhandledRespDataType(c) => RespErrV::UnhandledRespDataType(*c),
            ResponseErrors::ArrayNumElementsInvalidLength(s) => RespErrV::ArrayNumElementsInvalidLength(
                s@,
            ),
            ResponseErrors::BulkStringInvalidLength(s) => RespErrV::BulkStringInvalidLength(s@),
        }
    }
}

// ------------------------------------------------------------------
// The wire form, written out: what the emitter produces.
// ------------------------------------------------------------------

/// The two-byte line terminator.
pub open spec fn spec_crlf() -> Seq<u8> {
    seq![13u8, 10u8]
}

/// `+<payload>\r\n`
pub open spec fn encode_simple(p: Seq<u8>) -> Seq<u8> {
    seq![43u8] + p + spec_crlf()
}

/// `-<payload>\r\n`
pub open spec fn encode_error(p: Seq<u8>) -> Seq<u8> {
    seq![45u8] + p + spec_crlf()
}

/// `:<digits>\r\n`
pub open spec fn encode_integer(p: Seq<u8>) -> Seq<u8> {
    seq![58u8] + p + spec_crlf()
}

/// `$<len>\r\n<payload>\r\n`; the length is the byte length, so the
/// payload may hold any bytes at all.
pub open spec fn encode_bulk(p: Seq<u8>) -> Seq<u8> {
    seq![36u8] + dec_rep(p.len()) + spec_crlf() + p + spec_crlf()
}

/// `$-1\r\n`, the nil bulk string.
pub open spec fn encode_nil() -> Seq<u8> {
    seq![36u8, 45u8, 49u8] + spec_crlf()
}

/// The concatenated bulk encodings of `els`, in order.
pub open spec fn encode_bulks(els: Seq<Seq<u8>>) -> Seq<u8>
    decreases els.len(),
{
    if els.len() == 0 {
        Seq::empty()
    } else {
        encode_bulk(els[0]) + encode_bulks(els.drop_first())
    }
}

/// `*<count>\r\n` followed by each element as a bulk string.
pub open spec fn encode_array(els: Seq<Seq<u8>>) -> Seq<u8> {
    seq![42u8] + dec_rep(els.len()) + spec_crlf() + encode_bulks(els)
}

/// The wire bytes of any frame.
pub open spec fn encode_frame(f: FrameV) -> Seq<u8> {
    match f {
        FrameV::Simple(p) => encode_simple(p),
        FrameV::Error(p) => encode_error(p),
        FrameV::Integer(p) => encode_integer(p),
        FrameV::Bulk(p) => encode_bulk(p),
        FrameV::Nil => encode_nil(),
        FrameV::Array(els) => encode_array(els),
    }
}

// ------------------------------------------------------------------
// The specification-level decoder.
// ------------------------------------------------------------------

/// A CRLF pair sits at position `i` of `s`.
pub open spec fn is_crlf_at(s: Seq<u8>, i: int) -> bool {
    i + 2 <= s.len() && s[i] == 13 && s[i + 1] == 10
}

/// The position of the first CRLF pair at or after `i`, or -1 if none.
pub open spec fn find_crlf(s: Seq<u8>, i: int) -> int
    decreases s.len() - i,
{
    if i < 0 || i + 2 > s.len() {
        -1
    } else if s[i] == 13 && s[i + 1] == 10 {
        i
    } else {
        find_crlf(s, i + 1)
    }
}

/// What reading one bulk string starting at its `$` yields.
pub ghost enum BulkStepV {
    /// The buffer ends before the value does.
    More,
    Fail(RespErrV),
    /// The nil bulk string `$-1\r\n`; holds the position after it.
    NilAt(int),
    /// A payload and the position after its trailing terminator.
    Done(Seq<u8>, int),
}

/// Reads one bulk string whose `$` sits at position `i`.
///
/// The two bytes after the payload are consumed without inspection, as
/// the terminator of the value.
pub open spec fn spec_parse_bulk(s: Seq<u8>, i: int) -> BulkStepV {
    let e = find_crlf(s, i + 1);
    if e < 0 {
        BulkStepV::More
    } else {
        let ls = s.subrange(i + 1, e);
        if ls == seq![45u8, 49u8] {
            BulkStepV::NilAt(e + 2)
        } else if !(ls.len() >= 1 && all_digits(ls)) {
            BulkStepV::Fail(RespErrV::BulkStringInvalidLength(ls))
        } else if dec_val(ls) > MAX_MESSAGE_SIZE {
            BulkStepV::Fail(RespErrV::MessageTooBig)
        } else if s.len() < e + 2 + dec_val(ls) + 2 {
            BulkStepV::More
        } else {
            BulkStepV::Done(s.subrange(e + 2, e + 2 + dec_val(ls)), e + 2 + dec_val(ls) + 2)
        }
    }
}

/// What reading a run of array elements yields.
pub ghost enum ElemsV {
    More,
    Fail(RespErrV),
    /// The payloads read, and the position after the last one.
    Done(Seq<Seq<u8>>, int),
}

/// Reads `n` consecutive bulk strings starting at position `i`. Within an
/// array only plain bulk strings are accepted: any other element, the nil
/// bulk string included, is refused.
pub open spec fn spec_decode_elems(s: Seq<u8>, i: int, n: nat) -> ElemsV
    decreases n,
{
    if n == 0 {
        ElemsV::Done(seq![], i)
    } else if i >= s.len() {
        ElemsV::More
    } else if s[i] != 36 {
        ElemsV::Fail(RespErrV::UnhandledRespDataType(s[i] as char))
    } else {
        match spec_parse_bulk(s, i) {
            BulkStepV::More => ElemsV::More,
            BulkStepV::Fail(e) => ElemsV::Fail(e),
            BulkStepV::NilAt(_) => ElemsV::Fail(
                RespErrV::BulkStringInvalidLength(seq![45u8, 49u8]),
            ),
            BulkStepV::Done(p, j) => match spec_decode_elems(s, j, (n - 1) as nat) {
                ElemsV::More => ElemsV::More,
                ElemsV::Fail(e) => ElemsV::Fail(e),
                ElemsV::Done(els, k) => ElemsV::Done(seq![p] + els, k),
            },
        }
    }
}

/// What reading one top-level value yields.
pub ghost enum StepV {
    More,
    Fail(RespErrV),
    /// A complete value and the position after it.
    Frame(FrameV, int),
}

/// Reads one top-level value starting at position `i` of `s`.
pub open spec fn spec_decode_at(s: Seq<u8>, i: int) -> StepV {
    if i >= s.len() {
        StepV::More
    } else {
        let c = s[i];
        if c == 43 || c == 45 || c == 58 {
            let e = find_crlf(s, i + 1);
            if e < 0 {
                StepV::More
            } else {
                let p = s.subrange(i + 1, e);
                if c == 43 {
                    StepV::Frame(FrameV::Simple(p), e + 2)
                } else if c == 45 {
                    StepV::Frame(FrameV::Error(p), e + 2)
                } else {
                    StepV::Frame(FrameV::Integer(p), e + 2)
                }
            }
        } else if c == 36 {
            match spec_parse_bulk(s, i) {
                BulkStepV::More => StepV::More,
                BulkStepV::Fail(e) => StepV::Fail(e),
                BulkStepV::NilAt(j) => StepV::Frame(FrameV::Nil, j),
                BulkStepV::Done(p, j) => StepV::Frame(FrameV::Bulk(p), j),
            }
        } else if c == 42 {
            let e = find_crlf(s, i + 1);
            if e < 0 {
                StepV::More
            } else {
                let ls = s.subrange(i + 1, e);
                if !(ls.len() >= 1 && all_digits(ls)) {
                    StepV::Fail(RespErrV::ArrayNumElementsInvalidLength(ls))
                } else if dec_val(ls) > MAX_MESSAGE_SIZE {
                    StepV::Fail(RespErrV::MessageTooBig)
                } else {
                    match spec_decode_elems(s, e + 2, dec_val(ls)) {
                        ElemsV::More => StepV::More,
                        ElemsV::Fail(er) => StepV::Fail(er),
                        ElemsV::Done(els, j) => StepV::Frame(FrameV::Array(els), j),
                    }
                }
            }
        } else {
            StepV::Fail(RespErrV::UnhandledRespDataType(c as char))
        }
    }
}

/// What reading a whole buffer yields: every complete value, in order,
/// and the position where the residual tail begins.
pub ghost enum StreamV {
    Fail(RespErrV),
    Done(Seq<FrameV>, int),
}

/// Reads values from position `i` on until the buffer runs short, and
/// reports where the residual tail starts. Any failure discards the lot.
pub open spec fn spec_decode_stream(s: Seq<u8>, i: int) -> StreamV
    decreases s.len() - i,
{
    match spec_decode_at(s, i) {
        StepV::More => StreamV::Done(seq![], i),
        StepV::Fail(e) => StreamV::Fail(e),
        StepV::Frame(f, j) => if i < j <= s.len() {
            match spec_decode_stream(s, j) {
                StreamV::Fail(e) => StreamV::Fail(e),
                StreamV::Done(fs, k) => StreamV::Done(seq![f] + fs, k),
            }
        } else {
            // A read value always advances; this arm is never the case.
            StreamV::Done(seq![], i)
        },
    }
}

// ------------------------------------------------------------------
// Facts about the specification-level decoder.
// ------------------------------------------------------------------

/// Where `find_crlf` points, a CRLF pair stands, and none stands earlier.
pub proof fn lemma_find_crlf(s: Seq<u8>, i: int)
    requires
        0 <= i,
    ensures
        find_crlf(s, i) >= 0 ==> i <= find_crlf(s, i) && is_crlf_at(s, find_crlf(s, i)),
        find_crlf(s, i) == -1 ==> forall|j: int| i <= j ==> !is_crlf_at(s, j),
        find_crlf(s, i) >= 0 ==> forall|j: int|
            i <= j < find_crlf(s, i) ==> !is_crlf_at(s, j),
    decreases s.len() - i,
{
    if i + 2 > s.len() {
    } else if s[i] == 13 && s[i + 1] == 10 {
    } else {
        lemma_find_crlf(s, i + 1);
    }
}

/// A value read by the specification-level decoder always advances past
/// its starting position and never past the end of the buffer.
pub proof fn lemma_decode_elems_advances(s: Seq<u8>, i: int, n: nat)
    requires
        0 <= i <= s.len(),
    ensures
        spec_decode_elems(s, i, n) matches ElemsV::Done(els, j) ==> i <= j <= s.len() && els.len()
            == n,
    decreases n,
{
    if n == 0 {
    } else if i >= s.len() {
    } else if s[i] != 36 {
    } else {
        lemma_find_crlf(s, i + 1);
        match spec_parse_bulk(s, i) {
            BulkStepV::Done(p, j) => {
                let e = find_crlf(s, i + 1);
                assert(e >= 0);
                assert(j == e + 2 + dec_val(s.subrange(i + 1, e)) + 2);
                assert(i < j <= s.len());
                lemma_decode_elems_advances(s, j, (n - 1) as nat);
                match spec_decode_elems(s, j, (n - 1) as nat) {
                    ElemsV::Done(els, k) => {
                        assert(spec_decode_elems(s, i, n) == ElemsV::Done(seq![p] + els, k));
                    },
                    _ => {},
                }
            },
            _ => {},
        }
    }
}

/// As [`lemma_decode_elems_advances`], for one top-level value.
pub proof fn lemma_decode_advances(s: Seq<u8>, i: int)
    requires
        0 <= i,
    ensures
        spec_decode_at(s, i) matches StepV::Frame(f, j) ==> i < j <= s.len(),
{
    if i < s.len() {
        lemma_find_crlf(s, i + 1);
        let c = s[i];
        if c == 42 {
            let e = find_crlf(s, i + 1);
            if e >= 0 {
                let ls = s.subrange(i + 1, e);
                if ls.len() >= 1 && all_digits(ls) && dec_val(ls) <= MAX_MESSAGE_SIZE {
                    lemma_decode_elems_advances(s, e + 2, dec_val(ls));
                }
            }
        }
    }
}

// ------------------------------------------------------------------
// The executable decoder.
// ------------------------------------------------------------------

/// What the executable decoder reports for one value.
pub enum DecodeStep {
    /// No complete value yet: extend the buffer and retry.
    More,
    Fail(ResponseErrors),
    /// A complete value and the position after it.
    Complete(Frame, usize),
}

impl View for DecodeStep {
    type V = StepV;

    open spec fn view(&self) -> StepV {
        match self {
            DecodeStep::More => StepV::More,
            DecodeStep::Fail(e) => StepV::Fail(e@),
            DecodeStep::Complete(f, j) => StepV::Frame(f@, *j as int),
        }
    }
}

/// Scans for the first CRLF pair at or after `from`.
#[verifier::loop_isolation(false)]
fn find_crlf_at(v: &Vec<u8>, from: usize) -> (r: Option<usize>)
    ensures
        match r {
            Some(e) => find_crlf(v@, from as int) == e as int && from <= e && e + 2 <= v.len(),
            None => find_crlf(v@, from as int) == -1,
        },
{
    let mut i: usize = from;
    loop
        invariant
            from <= i,
            find_crlf(v@, from as int) == find_crlf(v@, i as int),
        decreases v.len() - i,
    {
        if v.len() < 2 || i > v.len() - 2 {
            return None;
        }
        if v[i] == 13 && v[i + 1] == 10 {
            return Some(i);
        }
        i = i + 1;
    }
}

/// Copies `v[a..b]` out into a fresh vector.
#[verifier::loop_isolation(false)]
pub fn copy_range(v: &Vec<u8>, a: usize, b: usize) -> (r: Vec<u8>)
    requires
        a <= b <= v.len(),
    ensures
        r@ == v@.subrange(a as int, b as int),
{
    let mut r: Vec<u8> = Vec::new();
    let mut i: usize = a;
    while i < b
        invariant
            a <= i <= b <= v.len(),
            r@ =~= v@.subrange(a as int, i as int),
        decreases b - i,
    {
        r.push(v[i]);
        proof {
            assert(r@ =~= v@.subrange(a as int, i + 1 as int));
        }
        i = i + 1;
    }
    r
}

/// The outcome of reading a length header line.
enum LenParse {
    NotNum,
    TooBig,
    Num(u64),
}

/// Reads the digits `v[a..b]` as a length, refusing anything that is not
/// a plain run of digits and anything above [`MAX_MESSAGE_SIZE`].
#[verifier::loop_isolation(false)]
fn parse_len(v: &Vec<u8>, a: usize, b: usize) -> (r: LenParse)
    requires
        a <= b <= v.len(),
    ensures
        match r {
            LenParse::NotNum => !(b - a >= 1 && all_digits(v@.subrange(a as int, b as int))),
            LenParse::TooBig => b - a >= 1 && all_digits(v@.subrange(a as int, b as int))
                && dec_val(v@.subrange(a as int, b as int)) > MAX_MESSAGE_SIZE,
            LenParse::Num(n) => b - a >= 1 && all_digits(v@.subrange(a as int, b as int)) && n
                == dec_val(v@.subrange(a as int, b as int)) && n <= MAX_MESSAGE_SIZE,
        },
{
    let ghost line = v@.subrange(a as int, b as int);
    if a == b {
        return LenParse::NotNum;
    }
    let mut i: usize = a;
    while i < b
        invariant
            a <= i <= b <= v.len(),
            forall|k: int| a <= k < i ==> is_digit(#[trigger] v@[k]),
        decreases b - i,
    {
        let d = v[i];
        if !(48 <= d && d <= 57) {
            proof {
                assert(line[i - a] == v@[i as int]);
                assert(!is_digit(line[i - a]));
            }
            return LenParse::NotNum;
        }
        i = i + 1;
    }
    proof {
        assert forall|k: int| 0 <= k < line.len() implies is_digit(#[trigger] line[k]) by {
            assert(line[k] == v@[a + k]);
        }
    }
    let mut acc: u64 = 0;
    let mut j: usize = a;
    while j < b
        invariant
            a <= j <= b <= v.len(),
            all_digits(line),
            line =~= v@.subrange(a as int, b as int),
            acc == dec_val(v@.subrange(a as int, j as int)),
            acc <= MAX_MESSAGE_SIZE,
        decreases b - j,
    {
        let d = v[j];
        proof {
            assert(line[j - a] == v@[j as int]);
            assert(is_digit(line[j - a]));
        }
        let next: u64 = acc * 10 + ((d - 48) as u64);
        proof {
            let pre = v@.subrange(a as int, j as int);
            let cur = v@.subrange(a as int, j + 1 as int);
            assert(cur.drop_last() =~= pre);
            assert(cur.last() == v@[j as int]);
            assert(dec_val(cur) == (dec_val(pre) * 10 + (cur.last() - 48)) as nat);
        }
        if next > MAX_MESSAGE_SIZE {
            proof {
                let cur = v@.subrange(a as int, j + 1 as int);
                assert(cur =~= line.subrange(0, j + 1 - a));
                lemma_dec_val_prefix(line, j + 1 - a);
            }
            return LenParse::TooBig;
        }
        acc = next;
        j = j + 1;
    }
    proof {
        assert(v@.subrange(a as int, b as int) =~= line);
    }
    LenParse::Num(acc)
}

/// The executable mirror of [`BulkStepV`].
pub enum BulkStep {
    More,
    Fail(ResponseErrors),
    NilAt(usize),
    Done(Vec<u8>, usize),
}

impl View for BulkStep {
    type V = BulkStepV;

    open spec fn view(&self) -> BulkStepV {
        match self {
            BulkStep::More => BulkStepV::More,
            BulkStep::Fail(e) => BulkStepV::Fail(e@),
            BulkStep::NilAt(j) => BulkStepV::NilAt(*j as int),
            BulkStep::Done(p, j) => BulkStepV::Done(p@, *j as int),
        }
    }
}

/// Reads one bulk string whose `$` sits at position `i`.
fn parse_bulk_at(v: &Vec<u8>, i: usize) -> (r: BulkStep)
    requires
        i < v.len(),
    ensures
        r@ == spec_parse_bulk(v@, i as int),
        r matches BulkStep::NilAt(j) ==> i < j <= v.len(),
        r matches BulkStep::Done(p, j) ==> i < j <= v.len(),
{
    proof {
        lemma_find_crlf(v@, i + 1);
    }
    let e = match find_crlf_at(v, i + 1) {
        None => {
            return BulkStep::More;
        },
        Some(e) => e,
    };
    let ghost ls = v@.subrange(i + 1 as int, e as int);
    if e == i + 3 && v[i + 1] == 45 && v[i + 2] == 49 {
        proof {
            assert(ls =~= seq![45u8, 49u8]);
        }
        return BulkStep::NilAt(e + 2);
    }
    proof {
        if ls == seq![45u8, 49u8] {
            assert(ls.len() == 2);
            assert(e == i + 3);
            assert(v@[i + 1] == ls[0]);
            assert(v@[i + 2] == ls[1]);
            assert(false);
        }
    }
    match parse_len(v, i + 1, e) {
        LenParse::NotNum => BulkStep::Fail(ResponseErrors::BulkStringInvalidLength(
            copy_range(v, i + 1, e),
        )),
        LenParse::TooBig => BulkStep::Fail(ResponseErrors::MessageTooBig),
        LenParse::Num(n) => {
            let remaining: usize = v.len() - (e + 2);
            if (remaining as u64) < n + 2 {
                return BulkStep::More;
            }
            let n_us: usize = n as usize;
            let payload = copy_range(v, e + 2, e + 2 + n_us);
            BulkStep::Done(payload, e + 2 + n_us + 2)
        },
    }
}

/// Glues a run of already-read elements onto the rest of an element read.
pub open spec fn prepend_elems(prefix: Seq<Seq<u8>>, rest: ElemsV) -> ElemsV {
    match rest {
        ElemsV::More => ElemsV::More,
        ElemsV::Fail(e) => ElemsV::Fail(e),
        ElemsV::Done(els, j) => ElemsV::Done(prefix + els, j),
    }
}

proof fn lemma_prepend_empty(x: ElemsV)
    ensures
        prepend_elems(seq![], x) == x,
{
    match x {
        ElemsV::Done(els, j) => {
            assert(seq![] + els =~= els);
        },
        _ => {},
    }
}

proof fn lemma_prepend_push(prefix: Seq<Seq<u8>>, p: Seq<u8>, x: ElemsV)
    ensures
        prepend_elems(prefix, prepend_elems(seq![p], x)) == prepend_elems(prefix.push(p), x),
{
    match x {
        ElemsV::Done(els, j) => {
            assert(prefix + (seq![p] + els) =~= prefix.push(p) + els);
        },
        _ => {},
    }
}

/// Reads one top-level value starting at position `i`.
///
/// Returns exactly what the specification-level decoder reads there; on
/// `Complete` the reported position strictly advances and stays within
/// the buffer.
#[verifier::loop_isolation(false)]
pub fn decode_frame(v: &Vec<u8>, i: usize) -> (r: DecodeStep)
    requires
        i <= v.len(),
    ensures
        r@ == spec_decode_at(v@, i as int),
        r matches DecodeStep::Complete(f, j) ==> i < j <= v.len(),
{
    if i >= v.len() {
        return DecodeStep::More;
    }
    let c = v[i];
    if c == 43 || c == 45 || c == 58 {
        proof {
            lemma_find_crlf(v@, i + 1);
        }
        match find_crlf_at(v, i + 1) {
            None => DecodeStep::More,
            Some(e) => {
                let p = copy_range(v, i + 1, e);
                if c == 43 {
                    DecodeStep::Complete(Frame::Simple(p), e + 2)
                } else if c == 45 {
                    DecodeStep::Complete(Frame::Error(p), e + 2)
                } else {
                    DecodeStep::Complete(Frame::Integer(p), e + 2)
                }
            },
        }
    } else if c == 36 {
        match parse_bulk_at(v, i) {
            BulkStep::More => DecodeStep::More,
            BulkStep::Fail(er) => DecodeStep::Fail(er),
            BulkStep::NilAt(j) => DecodeStep::Complete(Frame::Nil, j),
            BulkStep::Done(p, j) => DecodeStep::Complete(Frame::Bulk(p), j),
        }
    } else if c == 42 {
        proof {
            lemma_find_crlf(v@, i + 1);
        }
        let e = match find_crlf_at(v, i + 1) {
            None => {
                return DecodeStep::More;
            },
            Some(e) => e,
        };
        let n = match parse_len(v, i + 1, e) {
            LenParse::NotNum => {
                return DecodeStep::Fail(ResponseErrors::ArrayNumElementsInvalidLength(
                    copy_range(v, i + 1, e),
                ));
            },
            LenParse::TooBig => {
                return DecodeStep::Fail(ResponseErrors::MessageTooBig);
            },
            LenParse::Num(n) => n,
        };
        let ghost start = e + 2 as int;
        let mut els: Vec<Vec<u8>> = Vec::new();
        let mut pos: usize = e + 2;
        let mut k: u64 = 0;
        proof {
            lemma_prepend_empty(spec_decode_elems(v@, start, n as nat));
            assert(bytes_view(els@) =~= Seq::<Seq<u8>>::empty());
        }
        while k < n
            invariant
                k <= n,
                pos <= v.len(),
                e + 2 <= pos,
                bytes_view(els@).len() == k,
                spec_decode_elems(v@, start, n as nat) == prepend_elems(
                    bytes_view(els@),
                    spec_decode_elems(v@, pos as int, (n - k) as nat),
                ),
            decreases n - k,
        {
            if pos >= v.len() {
                return DecodeStep::More;
            }
            if v[pos] != 36 {
                return DecodeStep::Fail(ResponseErrors::UnhandledRespDataType(v[pos] as char));
            }
            match parse_bulk_at(v, pos) {
                BulkStep::More => {
                    return DecodeStep::More;
                },
                BulkStep::Fail(er) => {
                    return DecodeStep::Fail(er);
                },
                BulkStep::NilAt(_) => {
                    let mut bad: Vec<u8> = Vec::new();
                    bad.push(45);
                    bad.push(49);
                    proof {
                        assert(bad@ =~= seq![45u8, 49u8]);
                    }
                    return DecodeStep::Fail(ResponseErrors::BulkStringInvalidLength(bad));
                },
                BulkStep::Done(p, j) => {
                    proof {
                        lemma_prepend_push(
                            bytes_view(els@),
                            p@,
                            spec_decode_elems(v@, j as int, (n - k - 1) as nat),
                        );
                        assert(spec_decode_elems(v@, pos as int, (n - k) as nat)
                            == prepend_elems(
                            seq![p@],
                            spec_decode_elems(v@, j as int, (n - k - 1) as nat),
                        ));
                    }
                    let ghost old_els = els@;
                    els.push(p);
                    proof {
                        assert(bytes_view(els@) =~= bytes_view(old_els).push(p@));
                    }
                    pos = j;
                    k = k + 1;
                },
            }
        }
        proof {
            assert(spec_decode_elems(v@, pos as int, 0) == ElemsV::Done(
                Seq::<Seq<u8>>::empty(),
                pos as int,
            ));
            assert(bytes_view(els@) + Seq::<Seq<u8>>::empty() =~= bytes_view(els@));
        }
        DecodeStep::Complete(Frame::Array(els), pos)
    } else {
        DecodeStep::Fail(ResponseErrors::UnhandledRespDataType(c as char))
    }
}

/// Reads the snapshot frame that follows a `FULLRESYNC` reply:
/// `$<len>\r\n` and then exactly `len` raw bytes, with no trailing
/// terminator. This is the codec's raw mode; the payload is handed to
/// the snapshot reader, not treated as a bulk string.
pub open spec fn spec_parse_raw(s: Seq<u8>, i: int) -> BulkStepV {
    if i >= s.len() {
        BulkStepV::More
    } else if s[i] != 36 {
        BulkStepV::Fail(RespErrV::UnhandledRespDataType(s[i] as char))
    } else {
        let e = find_crlf(s, i + 1);
        if e < 0 {
            BulkStepV::More
        } else {
            let ls = s.subrange(i + 1, e);
            if !(ls.len() >= 1 && all_digits(ls)) {
                BulkStepV::Fail(RespErrV::BulkStringInvalidLength(ls))
            } else if dec_val(ls) > MAX_MESSAGE_SIZE {
                BulkStepV::Fail(RespErrV::MessageTooBig)
            } else if s.len() < e + 2 + dec_val(ls) {
                BulkStepV::More
            } else {
                BulkStepV::Done(s.subrange(e + 2, e + 2 + dec_val(ls)), e + 2 + dec_val(ls))
            }
        }
    }
}

/// Reads a raw snapshot frame starting at position `i`.
pub fn decode_raw_frame(v: &Vec<u8>, i: usize) -> (r: BulkStep)
    requires
        i <= v.len(),
    ensures
        r@ == spec_parse_raw(v@, i as int),
        r matches BulkStep::Done(p, j) ==> i < j <= v.len(),
{
    if i >= v.len() {
        return BulkStep::More;
    }
    if v[i] != 36 {
        return BulkStep::Fail(ResponseErrors::UnhandledRespDataType(v[i] as char));
    }
    proof {
        lemma_find_crlf(v@, i + 1);
    }
    let e = match find_crlf_at(v, i + 1) {
        None => {
            return BulkStep::More;
        },
        Some(e) => e,
    };
    match parse_len(v, i + 1, e) {
        LenParse::NotNum => BulkStep::Fail(ResponseErrors::BulkStringInvalidLength(
            copy_range(v, i + 1, e),
        )),
        LenParse::TooBig => BulkStep::Fail(ResponseErrors::MessageTooBig),
        LenParse::Num(n) => {
            let remaining: usize = v.len() - (e + 2);
            if (remaining as u64) < n {
                return BulkStep::More;
            }
            let n_us: usize = n as usize;
            let payload = copy_range(v, e + 2, e + 2 + n_us);
            BulkStep::Done(payload, e + 2 + n_us)
        },
    }
}

/// Glues a run of already-read frames onto the rest of a stream read.
pub open spec fn prepend_stream(prefix: Seq<FrameV>, x: StreamV) -> StreamV {
    match x {
        StreamV::Fail(e) => StreamV::Fail(e),
        StreamV::Done(fs, k) => StreamV::Done(prefix + fs, k),
    }
}

pub proof fn lemma_prepend_stream_empty(x: StreamV)
    ensures
        prepend_stream(seq![], x) == x,
{
    match x {
        StreamV::Done(fs, k) => {
            assert(seq![] + fs =~= fs);
        },
        _ => {},
    }
}

pub proof fn lemma_prepend_stream_push(prefix: Seq<FrameV>, f: FrameV, x: StreamV)
    ensures
        prepend_stream(prefix, prepend_stream(seq![f], x)) == prepend_stream(prefix.push(f), x),
{
    match x {
        StreamV::Done(fs, k) => {
            assert(prefix + (seq![f] + fs) =~= prefix.push(f) + fs);
        },
        _ => {},
    }
}

// ------------------------------------------------------------------
// The emitter.
// ------------------------------------------------------------------

/// Appends `v[a..b]` to `out`.
#[verifier::loop_isolation(false)]
pub fn push_range(out: &mut Vec<u8>, v: &Vec<u8>, a: usize, b: usize)
    requires
        a <= b <= v.len(),
    ensures
        final(out)@ == old(out)@ + v@.subrange(a as int, b as int),
{
    let mut i: usize = a;
    while i < b
        invariant
            a <= i <= b <= v.len(),
            out@ =~= old(out)@ + v@.subrange(a as int, i as int),
        decreases b - i,
    {
        out.push(v[i]);
        proof {
            assert(out@ =~= old(out)@ + v@.subrange(a as int, i + 1 as int));
        }
        i = i + 1;
    }
}

/// Copies a byte string.
pub fn clone_bytes(v: &Vec<u8>) -> (r: Vec<u8>)
    ensures
        r@ == v@,
{
    let mut r: Vec<u8> = Vec::new();
    push_range(&mut r, v, 0, v.len());
    proof {
        assert(v@.subrange(0, v@.len() as int) =~= v@);
        assert(r@ =~= v@);
    }
    r
}

/// Compares two byte strings for equality.
#[verifier::loop_isolation(false)]
pub fn eq_bytes(a: &Vec<u8>, b: &Vec<u8>) -> (r: bool)
    ensures
        r == (a@ == b@),
{
    if a.len() != b.len() {
        return false;
    }
    let mut i: usize = 0;
    while i < a.len()
        invariant
            i <= a.len() == b.len(),
            forall|k: int| 0 <= k < i ==> a@[k] == b@[k],
        decreases a.len() - i,
    {
        if a[i] != b[i] {
            return false;
        }
        i = i + 1;
    }
    proof {
        assert(a@ =~= b@);
    }
    true
}

/// The element-wise view of a vector of frames.
pub open spec fn frames_view(v: Seq<Frame>) -> Seq<FrameV> {
    Seq::new(v.len(), |i: int| v[i]@)
}

/// Emits `+<text>\r\n`.
pub fn emit_simple(p: &Vec<u8>) -> (r: Vec<u8>)
    ensures
        r@ == encode_simple(p@),
{
    let mut r: Vec<u8> = Vec::new();
    r.push(43);
    push_range(&mut r, p, 0, p.len());
    r.push(13);
    r.push(10);
    proof {
        assert(p@.subrange(0, p@.len() as int) =~= p@);
        assert(r@ =~= encode_simple(p@));
    }
    r
}

/// Emits `-<text>\r\n`.
pub fn emit_error(p: &Vec<u8>) -> (r: Vec<u8>)
    ensures
        r@ == encode_error(p@),
{
    let mut r: Vec<u8> = Vec::new();
    r.push(45);
    push_range(&mut r, p, 0, p.len());
    r.push(13);
    r.push(10);
    proof {
        assert(p@.subrange(0, p@.len() as int) =~= p@);
        assert(r@ =~= encode_error(p@));
    }
    r
}

/// Emits `$-1\r\n`.
pub fn emit_nil() -> (r: Vec<u8>)
    ensures
        r@ == encode_nil(),
{
    let mut r: Vec<u8> = Vec::new();
    r.push(36);
    r.push(45);
    r.push(49);
    r.push(13);
    r.push(10);
    proof {
        assert(r@ =~= encode_nil());
    }
    r
}

/// Emits `$<len>\r\n<bytes>\r\n`. The length is the byte length of the
/// payload: no text encoding is assumed.
pub fn emit_bulk(p: &Vec<u8>) -> (r: Vec<u8>)
    ensures
        r@ == encode_bulk(p@),
{
    let mut r: Vec<u8> = Vec::new();
    r.push(36);
    let mut digits = u64_to_dec(p.len() as u64);
    r.append(&mut digits);
    r.push(13);
    r.push(10);
    push_range(&mut r, p, 0, p.len());
    r.push(13);
    r.push(10);
    proof {
        assert(p@.subrange(0, p@.len() as int) =~= p@);
        assert(r@ =~= encode_bulk(p@));
    }
    r
}

proof fn lemma_encode_bulks_push(els: Seq<Seq<u8>>, p: Seq<u8>)
    ensures
        encode_bulks(els.push(p)) == encode_bulks(els) + encode_bulk(p),
    decreases els.len(),
{
    if els.len() == 0 {
        assert(els.push(p)[0] == p);
        assert(els.push(p).drop_first() =~= Seq::<Seq<u8>>::empty());
        assert(encode_bulks(Seq::<Seq<u8>>::empty()) == Seq::<u8>::empty());
        assert(encode_bulks(els.push(p)) == encode_bulk(p) + Seq::<u8>::empty());
        assert(encode_bulk(p) + Seq::<u8>::empty() =~= Seq::<u8>::empty() + encode_bulk(p));
    } else {
        lemma_encode_bulks_push(els.drop_first(), p);
        assert(els.push(p).drop_first() =~= els.drop_first().push(p));
        assert(els.push(p)[0] == els[0]);
        assert(encode_bulk(els[0]) + (encode_bulks(els.drop_first()) + encode_bulk(p)) =~= (
        encode_bulk(els[0]) + encode_bulks(els.drop_first())) + encode_bulk(p));
    }
}

/// Emits `*<count>\r\n` followed by every element as a bulk string.
#[verifier::loop_isolation(false)]
pub fn emit_array(els: &Vec<Vec<u8>>) -> (r: Vec<u8>)
    ensures
        r@ == encode_array(bytes_view(els@)),
{
    let mut r: Vec<u8> = Vec::new();
    r.push(42);
    let mut digits = u64_to_dec(els.len() as u64);
    r.append(&mut digits);
    r.push(13);
    r.push(10);
    let ghost header = seq![42u8] + dec_rep(els@.len()) + spec_crlf();
    proof {
        assert(r@ =~= header + encode_bulks(bytes_view(els@).subrange(0, 0)));
    }
    let mut i: usize = 0;
    while i < els.len()
        invariant
            i <= els.len(),
            r@ =~= header + encode_bulks(bytes_view(els@).subrange(0, i as int)),
        decreases els.len() - i,
    {
        let mut one = emit_bulk(&els[i]);
        r.append(&mut one);
        proof {
            lemma_encode_bulks_push(bytes_view(els@).subrange(0, i as int), els@[i as int]@);
            assert(bytes_view(els@).subrange(0, i + 1 as int) =~= bytes_view(els@).subrange(
                0,
                i as int,
            ).push(els@[i as int]@));
        }
        i = i + 1;
    }
    proof {
        assert(bytes_view(els@).subrange(0, els@.len() as int) =~= bytes_view(els@));
    }
    r
}

} // verus!
