//! The codec round-trip laws: a frame written to the wire is read back
//! exactly, whatever follows it in the buffer, and no strict prefix of
//! its wire form is ever read as a value or refused as an error.

use vstd::prelude::*;

use crate::digits::all_digits;
use crate::digits::dec_rep;
use crate::digits::dec_val;
use crate::digits::is_digit;
use crate::digits::lemma_dec_rep_digits;
use crate::digits::lemma_dec_val_of_rep;
use crate::resp::BulkStepV;
use crate::resp::ElemsV;
use crate::resp::FrameV;
use crate::resp::StepV;
use crate::resp::StreamV;
use crate::resp::MAX_MESSAGE_SIZE;
use crate::resp::encode_bulk;
use crate::resp::encode_bulks;
use crate::resp::encode_frame;
use crate::resp::find_crlf;
use crate::resp::is_crlf_at;
use crate::resp::spec_crlf;
use crate::resp::spec_decode_at;
use crate::resp::spec_decode_elems;
use crate::resp::spec_decode_stream;
use crate::resp::spec_parse_bulk;
use crate::resp::spec_parse_raw;

verus! {

/// `p` holds no CRLF pair. A simple-string, error or integer payload of
/// this shape survives the wire unchanged; one with a CRLF pair cannot,
/// since the first pair ends the line.
pub open spec fn crlf_free(p: Seq<u8>) -> bool {
    forall|k: int| 0 <= k && k + 1 < p.len() ==> !(#[trigger] p[k] == 13 && p[k + 1] == 10)
}

/// The frames whose wire form reads back as the frame itself: line
/// payloads free of CRLF pairs, and lengths and counts within
/// [`MAX_MESSAGE_SIZE`].
pub open spec fn frame_wf(f: FrameV) -> bool {
    match f {
        FrameV::Simple(p) => crlf_free(p),
        FrameV::Error(p) => crlf_free(p),
        FrameV::Integer(p) => crlf_free(p),
        FrameV::Bulk(p) => p.len() <= MAX_MESSAGE_SIZE,
        FrameV::Nil => true,
        FrameV::Array(els) => els.len() <= MAX_MESSAGE_SIZE && forall|k: int|
            0 <= k < els.len() ==> #[trigger] els[k].len() <= MAX_MESSAGE_SIZE,
    }
}

/// The bytes `t` stand in `s` at position `i`.
pub open spec fn seg_at(s: Seq<u8>, i: int, t: Seq<u8>) -> bool {
    &&& 0 <= i
    &&& i + t.len() <= s.len()
    &&& forall|k: int| 0 <= k < t.len() ==> s[i + k] == #[trigger] t[k]
}

proof fn lemma_seg_split(s: Seq<u8>, i: int, a: Seq<u8>, b: Seq<u8>)
    requires
        seg_at(s, i, a + b),
    ensures
        seg_at(s, i, a),
        seg_at(s, i + a.len(), b),
{
    assert forall|k: int| 0 <= k < a.len() implies s[i + k] == #[trigger] a[k] by {
        assert((a + b)[k] == a[k]);
        assert(s[i + k] == (a + b)[k]);
    }
    assert forall|k: int| 0 <= k < b.len() implies s[i + a.len() + k] == #[trigger] b[k] by {
        assert((a + b)[a.len() + k] == b[k]);
        assert(s[i + (a.len() + k)] == (a + b)[a.len() + k]);
    }
}

/// Where a CRLF pair stands at `j` and none stands from `i` up to `j`,
/// the scan from `i` stops exactly at `j`.
proof fn lemma_find_crlf_exact(s: Seq<u8>, i: int, j: int)
    requires
        0 <= i <= j,
        is_crlf_at(s, j),
        forall|k: int| i <= k < j ==> !#[trigger] is_crlf_at(s, k),
    ensures
        find_crlf(s, i) == j,
    decreases j - i,
{
    if i == j {
    } else {
        assert(!is_crlf_at(s, i));
        lemma_find_crlf_exact(s, i + 1, j);
    }
}

/// Where no CRLF pair stands at or after `i`, the scan finds nothing.
proof fn lemma_find_crlf_none(s: Seq<u8>, i: int)
    requires
        0 <= i,
        forall|k: int| i <= k ==> !#[trigger] is_crlf_at(s, k),
    ensures
        find_crlf(s, i) == -1,
    decreases s.len() - i,
{
    if i + 2 > s.len() {
    } else {
        assert(!is_crlf_at(s, i));
        lemma_find_crlf_none(s, i + 1);
    }
}

/// A bulk-string wire form standing whole in a buffer reads back as its
/// payload, ending exactly where the wire form ends.
proof fn lemma_parse_bulk_encoded(s: Seq<u8>, i: int, p: Seq<u8>)
    requires
        p.len() <= MAX_MESSAGE_SIZE,
        seg_at(s, i, encode_bulk(p)),
    ensures
        spec_parse_bulk(s, i) == BulkStepV::Done(p, i + encode_bulk(p).len()),
{
    let d = dec_rep(p.len());
    lemma_dec_rep_digits(p.len());
    lemma_dec_val_of_rep(p.len());
    let enc = encode_bulk(p);
    assert(enc == seq![36u8] + d + spec_crlf() + p + spec_crlf());
    let e = i + 1 + d.len();
    assert forall|k: int| 0 <= k < enc.len() implies s[i + k] == enc[k] by {
        assert(enc[k] == enc[k]);
    }
    assert(s[e] == 13 && s[e + 1] == 10) by {
        assert(enc[1 + d.len() as int] == 13);
        assert(enc[1 + d.len() as int + 1] == 10);
        assert(s[i + (1 + d.len())] == enc[1 + d.len() as int]);
        assert(s[i + (1 + d.len() + 1)] == enc[1 + d.len() as int + 1]);
    }
    assert(is_crlf_at(s, e));
    assert forall|k: int| i + 1 <= k < e implies !#[trigger] is_crlf_at(s, k) by {
        let t = k - i;
        assert(s[i + t] == enc[t]);
        assert(enc[t] == d[t - 1]);
        assert(is_digit(d[t - 1]));
    }
    lemma_find_crlf_exact(s, i + 1, e);
    let ls = s.subrange(i + 1, e);
    assert(ls =~= d) by {
        assert forall|k: int| 0 <= k < d.len() implies ls[k] == d[k] by {
            assert(s[i + (1 + k)] == enc[1 + k]);
            assert(enc[1 + k] == d[k]);
        }
    }
    assert(ls != seq![45u8, 49u8]) by {
        if ls == seq![45u8, 49u8] {
            assert(is_digit(d[0]));
            assert(d[0] == 45u8);
        }
    }
    assert(ls.len() >= 1 && all_digits(ls));
    assert(dec_val(ls) == p.len());
    assert(s.len() >= e + 2 + p.len() + 2);
    let q = s.subrange(e + 2, e + 2 + p.len() as int);
    assert(q =~= p) by {
        assert forall|k: int| 0 <= k < p.len() implies q[k] == p[k] by {
            assert(s[i + (1 + d.len() + 2 + k)] == enc[1 + d.len() as int + 2 + k]);
            assert(enc[1 + d.len() as int + 2 + k] == p[k]);
        }
    }
    assert(e + 2 + p.len() + 2 == i + enc.len());
}

/// A buffer that ends strictly inside a bulk-string wire form reads as
/// "need more bytes".
proof fn lemma_parse_bulk_prefix(s: Seq<u8>, i: int, p: Seq<u8>)
    requires
        p.len() <= MAX_MESSAGE_SIZE,
        0 <= i,
        s.len() < i + encode_bulk(p).len(),
        seg_at(s, i, encode_bulk(p).subrange(0, s.len() - i)),
    ensures
        spec_parse_bulk(s, i) == BulkStepV::More,
{
    let d = dec_rep(p.len());
    lemma_dec_rep_digits(p.len());
    lemma_dec_val_of_rep(p.len());
    let enc = encode_bulk(p);
    assert(enc == seq![36u8] + d + spec_crlf() + p + spec_crlf());
    let m = s.len() - i;
    let part = enc.subrange(0, m);
    assert forall|k: int| 0 <= k < m implies s[i + k] == enc[k] by {
        assert(part[k] == part[k]);
        assert(part[k] == enc[k]);
    }
    let hdr = 1 + d.len() + 2;
    if m < hdr {
        assert forall|k: int| i + 1 <= k implies !#[trigger] is_crlf_at(s, k) by {
            if is_crlf_at(s, k) {
                let t = k - i;
                assert(s[i + t] == enc[t]);
                assert(s[i + t + 1] == enc[t + 1]);
                if t + 1 < 1 + d.len() {
                    assert(enc[t] == d[t - 1]);
                    assert(is_digit(d[t - 1]));
                } else if t < 1 + d.len() {
                    // the CR would have to be a digit, or the LF sits at
                    // the header CR position
                    assert(enc[t + 1] == 13);
                } else {
                    // k + 2 <= s.len() = i + m <= i + hdr - 1, so the
                    // pair would end past the buffer
                    assert(t + 2 <= m);
                    assert(t >= 1 + d.len());
                    assert(t + 2 >= hdr + 1);
                }
            }
        }
        lemma_find_crlf_none(s, i + 1);
    } else {
        let e = i + 1 + d.len();
        assert(s[e] == 13 && s[e + 1] == 10) by {
            assert(s[i + (1 + d.len())] == enc[1 + d.len() as int]);
            assert(enc[1 + d.len() as int] == 13);
            assert(s[i + (1 + d.len() + 1)] == enc[1 + d.len() as int + 1]);
            assert(enc[1 + d.len() as int + 1] == 10);
        }
        assert(is_crlf_at(s, e));
        assert forall|k: int| i + 1 <= k < e implies !#[trigger] is_crlf_at(s, k) by {
            let t = k - i;
            assert(s[i + t] == enc[t]);
            assert(enc[t] == d[t - 1]);
            assert(is_digit(d[t - 1]));
        }
        lemma_find_crlf_exact(s, i + 1, e);
        let ls = s.subrange(i + 1, e);
        assert(ls =~= d) by {
            assert forall|k: int| 0 <= k < d.len() implies ls[k] == d[k] by {
                assert(s[i + (1 + k)] == enc[1 + k]);
                assert(enc[1 + k] == d[k]);
            }
        }
        assert(ls != seq![45u8, 49u8]) by {
            if ls == seq![45u8, 49u8] {
                assert(is_digit(d[0]));
                assert(d[0] == 45u8);
            }
        }
        assert(dec_val(ls) == p.len());
        assert(s.len() < e + 2 + p.len() + 2);
    }
}

/// A run of bulk-string wire forms standing whole in a buffer reads back
/// as its payloads, in order.
proof fn lemma_elems_encoded(s: Seq<u8>, i: int, els: Seq<Seq<u8>>)
    requires
        forall|k: int| 0 <= k < els.len() ==> #[trigger] els[k].len() <= MAX_MESSAGE_SIZE,
        seg_at(s, i, encode_bulks(els)),
    ensures
        spec_decode_elems(s, i, els.len()) == ElemsV::Done(els, i + encode_bulks(els).len()),
    decreases els.len(),
{
    if els.len() == 0 {
        assert(els =~= Seq::<Seq<u8>>::empty());
    } else {
        let b0 = encode_bulk(els[0]);
        let rest = encode_bulks(els.drop_first());
        assert(encode_bulks(els) == b0 + rest);
        lemma_seg_split(s, i, b0, rest);
        assert(s[i] == 36) by {
            assert(b0 == seq![36u8] + dec_rep(els[0].len()) + spec_crlf() + els[0] + spec_crlf());
            assert(b0[0] == 36);
            assert(s[i + 0] == b0[0]);
        }
        assert(i < s.len());
        lemma_parse_bulk_encoded(s, i, els[0]);
        assert forall|k: int| 0 <= k < els.drop_first().len() implies #[trigger] els.drop_first()[k].len()
            <= MAX_MESSAGE_SIZE by {
            assert(els.drop_first()[k] == els[k + 1]);
            assert(els[k + 1].len() <= MAX_MESSAGE_SIZE);
        }
        lemma_elems_encoded(s, i + b0.len(), els.drop_first());
        assert(seq![els[0]] + els.drop_first() =~= els);
    }
}

/// A buffer that ends strictly inside a run of bulk-string wire forms
/// reads as "need more bytes".
proof fn lemma_elems_prefix(s: Seq<u8>, i: int, els: Seq<Seq<u8>>)
    requires
        forall|k: int| 0 <= k < els.len() ==> #[trigger] els[k].len() <= MAX_MESSAGE_SIZE,
        0 <= i <= s.len(),
        s.len() < i + encode_bulks(els).len(),
        seg_at(s, i, encode_bulks(els).subrange(0, s.len() - i)),
    ensures
        spec_decode_elems(s, i, els.len()) == ElemsV::More,
    decreases els.len(),
{
    assert(els.len() > 0) by {
        if els.len() == 0 {
            assert(encode_bulks(els).len() == 0);
        }
    }
    let m = s.len() - i;
    let b0 = encode_bulk(els[0]);
    let rest = encode_bulks(els.drop_first());
    assert(encode_bulks(els) == b0 + rest);
    let part = encode_bulks(els).subrange(0, m);
    assert forall|k: int| 0 <= k < m implies s[i + k] == encode_bulks(els)[k] by {
        assert(part[k] == part[k]);
        assert(part[k] == encode_bulks(els)[k]);
    }
    if m == 0 {
        assert(i >= s.len());
    } else {
        assert(s[i] == 36) by {
            assert(b0 == seq![36u8] + dec_rep(els[0].len()) + spec_crlf() + els[0] + spec_crlf());
            assert(b0[0] == 36);
            assert((b0 + rest)[0] == b0[0]);
            assert(s[i + 0] == encode_bulks(els)[0]);
        }
        if m < b0.len() {
            assert(seg_at(s, i, b0.subrange(0, m))) by {
                assert forall|k: int| 0 <= k < m implies s[i + k] == #[trigger] b0.subrange(0, m)[k] by {
                    assert(s[i + k] == encode_bulks(els)[k]);
                    assert((b0 + rest)[k] == b0[k]);
                }
            }
            lemma_parse_bulk_prefix(s, i, els[0]);
        } else {
            assert(seg_at(s, i, b0)) by {
                assert forall|k: int| 0 <= k < b0.len() implies s[i + k] == #[trigger] b0[k] by {
                    assert(s[i + k] == encode_bulks(els)[k]);
                    assert((b0 + rest)[k] == b0[k]);
                }
            }
            lemma_parse_bulk_encoded(s, i, els[0]);
            assert forall|k: int| 0 <= k < els.drop_first().len() implies #[trigger] els.drop_first()[k].len()
                <= MAX_MESSAGE_SIZE by {
                assert(els.drop_first()[k] == els[k + 1]);
                assert(els[k + 1].len() <= MAX_MESSAGE_SIZE);
            }
            let i2 = i + b0.len();
            assert(seg_at(s, i2, rest.subrange(0, s.len() - i2))) by {
                assert forall|k: int| 0 <= k < s.len() - i2 implies s[i2 + k] == #[trigger] rest.subrange(
                    0,
                    s.len() - i2,
                )[k] by {
                    assert(rest.subrange(0, s.len() - i2)[k] == rest[k]);
                    assert(s[i + (b0.len() + k)] == encode_bulks(els)[b0.len() + k]);
                    assert((b0 + rest)[b0.len() + k] == rest[k]);
                }
            }
            lemma_elems_prefix(s, i2, els.drop_first());
        }
    }
}

/// Reading at the start of a whole wire form yields exactly the frame
/// that was written, ending exactly where its wire form ends — whatever
/// else follows in the buffer.
proof fn lemma_decode_encoded(s: Seq<u8>, i: int, f: FrameV)
    requires
        frame_wf(f),
        seg_at(s, i, encode_frame(f)),
    ensures
        spec_decode_at(s, i) == StepV::Frame(f, i + encode_frame(f).len()),
{
    let enc = encode_frame(f);
    assert forall|k: int| 0 <= k < enc.len() implies s[i + k] == enc[k] by {
        assert(enc[k] == enc[k]);
    }
    match f {
        FrameV::Simple(p) | FrameV::Error(p) | FrameV::Integer(p) => {
            let c = enc[0];
            assert(s[i + 0] == enc[0]);
            let e = i + 1 + p.len();
            assert(s[e] == 13 && s[e + 1] == 10) by {
                assert(s[i + (1 + p.len())] == enc[1 + p.len() as int]);
                assert(s[i + (1 + p.len() + 1)] == enc[1 + p.len() as int + 1]);
            }
            assert(is_crlf_at(s, e));
            assert forall|k: int| i + 1 <= k < e implies !#[trigger] is_crlf_at(s, k) by {
                if is_crlf_at(s, k) {
                    let t = k - i;
                    assert(s[i + t] == enc[t]);
                    assert(enc[t] == p[t - 1]);
                    if t < p.len() {
                        assert(s[i + (t + 1)] == enc[t + 1]);
                        assert(enc[t + 1] == p[t]);
                        assert(p[t - 1] == 13 && p[t] == 10);
                    } else {
                        assert(t == p.len());
                        assert(s[i + (t + 1)] == enc[t + 1]);
                        assert(enc[t + 1] == 13);
                    }
                }
            }
            lemma_find_crlf_exact(s, i + 1, e);
            assert(s.subrange(i + 1, e) =~= p) by {
                assert forall|k: int| 0 <= k < p.len() implies s.subrange(i + 1, e)[k] == p[k] by {
                    assert(s[i + (1 + k)] == enc[1 + k]);
                    assert(enc[1 + k] == p[k]);
                }
            }
        },
        FrameV::Bulk(p) => {
            assert(s[i + 0] == enc[0]);
            assert(enc[0] == 36);
            lemma_parse_bulk_encoded(s, i, p);
        },
        FrameV::Nil => {
            assert(enc =~= seq![36u8, 45u8, 49u8, 13u8, 10u8]);
            assert(s[i + 0] == enc[0]);
            assert(s[i + 1] == enc[1]);
            assert(s[i + 2] == enc[2]);
            assert(s[i + 3] == enc[3]);
            assert(s[i + 4] == enc[4]);
            let e = i + 3;
            assert(is_crlf_at(s, e));
            assert forall|k: int| i + 1 <= k < e implies !#[trigger] is_crlf_at(s, k) by {
                let t = k - i;
                assert(s[i + t] == enc[t]);
            }
            lemma_find_crlf_exact(s, i + 1, e);
            assert(s.subrange(i + 1, e) =~= seq![45u8, 49u8]);
        },
        FrameV::Array(els) => {
            let d = dec_rep(els.len());
            lemma_dec_rep_digits(els.len());
            lemma_dec_val_of_rep(els.len());
            assert(enc == seq![42u8] + d + spec_crlf() + encode_bulks(els));
            assert(s[i + 0] == enc[0]);
            assert(enc[0] == 42);
            let e = i + 1 + d.len();
            assert(s[e] == 13 && s[e + 1] == 10) by {
                assert(s[i + (1 + d.len())] == enc[1 + d.len() as int]);
                assert(enc[1 + d.len() as int] == 13);
                assert(s[i + (1 + d.len() + 1)] == enc[1 + d.len() as int + 1]);
                assert(enc[1 + d.len() as int + 1] == 10);
            }
            assert(is_crlf_at(s, e));
            assert forall|k: int| i + 1 <= k < e implies !#[trigger] is_crlf_at(s, k) by {
                let t = k - i;
                assert(s[i + t] == enc[t]);
                assert(enc[t] == d[t - 1]);
                assert(is_digit(d[t - 1]));
            }
            lemma_find_crlf_exact(s, i + 1, e);
            let ls = s.subrange(i + 1, e);
            assert(ls =~= d) by {
                assert forall|k: int| 0 <= k < d.len() implies ls[k] == d[k] by {
                    assert(s[i + (1 + k)] == enc[1 + k]);
                    assert(enc[1 + k] == d[k]);
                }
            }
            assert(dec_val(ls) == els.len());
            assert(seg_at(s, e + 2, encode_bulks(els))) by {
                assert forall|k: int| 0 <= k < encode_bulks(els).len() implies s[e + 2 + k]
                    == #[trigger] encode_bulks(els)[k] by {
                    assert(s[i + (1 + d.len() + 2 + k)] == enc[1 + d.len() as int + 2 + k]);
                    assert(enc[1 + d.len() as int + 2 + k] == encode_bulks(els)[k]);
                }
            }
            lemma_elems_encoded(s, e + 2, els);
        },
    }
}

/// A buffer that is a strict prefix of a wire form reads as "need more
/// bytes": never a spurious value, never a spurious error.
proof fn lemma_decode_prefix(s: Seq<u8>, i: int, f: FrameV)
    requires
        frame_wf(f),
        0 <= i <= s.len(),
        s.len() < i + encode_frame(f).len(),
        seg_at(s, i, encode_frame(f).subrange(0, s.len() - i)),
    ensures
        spec_decode_at(s, i) == StepV::More,
{
    let enc = encode_frame(f);
    let m = s.len() - i;
    let part = enc.subrange(0, m);
    assert forall|k: int| 0 <= k < m implies s[i + k] == enc[k] by {
        assert(part[k] == part[k]);
        assert(part[k] == enc[k]);
    }
    if m == 0 {
        assert(i >= s.len());
    } else {
        match f {
            FrameV::Simple(p) | FrameV::Error(p) | FrameV::Integer(p) => {
                assert(s[i + 0] == enc[0]);
                assert forall|k: int| i + 1 <= k implies !#[trigger] is_crlf_at(s, k) by {
                    if is_crlf_at(s, k) {
                        let t = k - i;
                        assert(t + 2 <= m);
                        assert(s[i + t] == enc[t]);
                        assert(s[i + (t + 1)] == enc[t + 1]);
                        if t + 1 < 1 + p.len() {
                            assert(enc[t] == p[t - 1]);
                            assert(enc[t + 1] == p[t]);
                            assert(p[t - 1] == 13 && p[t] == 10);
                        } else if t < 1 + p.len() {
                            assert(enc[t + 1] == 13);
                        } else {
                            // the full terminator would have to fit, so
                            // the buffer would hold the whole wire form
                            assert(t + 2 >= enc.len() + 1);
                        }
                    }
                }
                lemma_find_crlf_none(s, i + 1);
            },
            FrameV::Bulk(p) => {
                assert(s[i + 0] == enc[0]);
                assert(enc[0] == 36);
                assert(seg_at(s, i, encode_bulk(p).subrange(0, m)));
                lemma_parse_bulk_prefix(s, i, p);
            },
            FrameV::Nil => {
                assert(enc =~= seq![36u8, 45u8, 49u8, 13u8, 10u8]);
                assert(s[i + 0] == enc[0]);
                assert forall|k: int| i + 1 <= k implies !#[trigger] is_crlf_at(s, k) by {
                    if is_crlf_at(s, k) {
                        let t = k - i;
                        assert(t + 2 <= m);
                        assert(t + 2 <= 4);
                        assert(s[i + t] == enc[t]);
                    }
                }
                lemma_find_crlf_none(s, i + 1);
            },
            FrameV::Array(els) => {
                let d = dec_rep(els.len());
                lemma_dec_rep_digits(els.len());
                lemma_dec_val_of_rep(els.len());
                assert(enc == seq![42u8] + d + spec_crlf() + encode_bulks(els));
                assert(s[i + 0] == enc[0]);
                assert(enc[0] == 42);
                let hdr = 1 + d.len() + 2;
                if m < hdr {
                    assert forall|k: int| i + 1 <= k implies !#[trigger] is_crlf_at(s, k) by {
                        if is_crlf_at(s, k) {
                            let t = k - i;
                            assert(t + 2 <= m);
                            assert(s[i + t] == enc[t]);
                            assert(s[i + (t + 1)] == enc[t + 1]);
                            if t + 1 < 1 + d.len() {
                                assert(enc[t] == d[t - 1]);
                                assert(is_digit(d[t - 1]));
                            } else if t < 1 + d.len() {
                                assert(enc[t + 1] == 13);
                            } else {
                                assert(t + 2 >= hdr + 1);
                            }
                        }
                    }
                    lemma_find_crlf_none(s, i + 1);
                } else {
                    let e = i + 1 + d.len();
                    assert(s[e] == 13 && s[e + 1] == 10) by {
                        assert(s[i + (1 + d.len())] == enc[1 + d.len() as int]);
                        assert(enc[1 + d.len() as int] == 13);
                        assert(s[i + (1 + d.len() + 1)] == enc[1 + d.len() as int + 1]);
                        assert(enc[1 + d.len() as int + 1] == 10);
                    }
                    assert(is_crlf_at(s, e));
                    assert forall|k: int| i + 1 <= k < e implies !#[trigger] is_crlf_at(s, k) by {
                        let t = k - i;
                        assert(s[i + t] == enc[t]);
                        assert(enc[t] == d[t - 1]);
                        assert(is_digit(d[t - 1]));
                    }
                    lemma_find_crlf_exact(s, i + 1, e);
                    let ls = s.subrange(i + 1, e);
                    assert(ls =~= d) by {
                        assert forall|k: int| 0 <= k < d.len() implies ls[k] == d[k] by {
                            assert(s[i + (1 + k)] == enc[1 + k]);
                            assert(enc[1 + k] == d[k]);
                        }
                    }
                    assert(dec_val(ls) == els.len());
                    let i2 = e + 2;
                    assert(seg_at(s, i2, encode_bulks(els).subrange(0, s.len() - i2))) by {
                        assert forall|k: int| 0 <= k < s.len() - i2 implies s[i2 + k]
                            == #[trigger] encode_bulks(els).subrange(0, s.len() - i2)[k] by {
                            assert(encode_bulks(els).subrange(0, s.len() - i2)[k]
                                == encode_bulks(els)[k]);
                            assert(s[i + (hdr + k)] == enc[hdr + k]);
                            assert(enc[hdr + k] == encode_bulks(els)[k]);
                        }
                    }
                    lemma_elems_prefix(s, i2, els);
                }
            },
        }
    }
}

/// Codec round trip, reading side: a well-formed frame written to the
/// wire is read back exactly, whatever bytes follow it.
pub proof fn lemma_decode_of_encode(f: FrameV, tail: Seq<u8>)
    requires
        frame_wf(f),
    ensures
        spec_decode_at(encode_frame(f) + tail, 0) == StepV::Frame(f, encode_frame(f).len() as int),
{
    let s = encode_frame(f) + tail;
    assert(seg_at(s, 0, encode_frame(f))) by {
        assert forall|k: int| 0 <= k < encode_frame(f).len() implies s[0 + k]
            == #[trigger] encode_frame(f)[k] by {
            assert(s[k] == (encode_frame(f) + tail)[k]);
        }
    }
    lemma_decode_encoded(s, 0, f);
}

/// Codec round trip, writing side: a buffer that is the wire form of a
/// well-formed frame is read as that frame and re-emits byte for byte.
pub proof fn lemma_encode_of_decode(b: Seq<u8>, f: FrameV)
    requires
        frame_wf(f),
        b == encode_frame(f),
    ensures
        spec_decode_at(b, 0) matches StepV::Frame(g, n) && encode_frame(g) == b && n == b.len(),
{
    lemma_decode_of_encode(f, Seq::empty());
    assert(encode_frame(f) + Seq::<u8>::empty() =~= b);
}

/// Raw-mode round trip: the snapshot frame a primary sends after
/// `FULLRESYNC` — a length header and exactly that many raw bytes with
/// no trailing terminator — reads back as the blob itself, whatever
/// streamed commands follow it on the same connection.
pub proof fn lemma_raw_frame_round_trip(blob: Seq<u8>, tail: Seq<u8>)
    requires
        blob.len() <= MAX_MESSAGE_SIZE,
    ensures
        spec_parse_raw(seq![36u8] + dec_rep(blob.len()) + spec_crlf() + blob + tail, 0)
            == BulkStepV::Done(blob, 1 + dec_rep(blob.len()).len() as int + 2 + blob.len()),
{
    let d = dec_rep(blob.len());
    lemma_dec_rep_digits(blob.len());
    lemma_dec_val_of_rep(blob.len());
    let enc = seq![36u8] + d + spec_crlf() + blob;
    let s = enc + tail;
    assert forall|k: int| 0 <= k < enc.len() implies s[k] == enc[k] by {
        assert((enc + tail)[k] == enc[k]);
    }
    assert(s[0] == 36) by {
        assert(enc[0] == 36);
    }
    let e = 1 + d.len() as int;
    assert(s[e] == 13 && s[e + 1] == 10) by {
        assert(enc[1 + d.len() as int] == 13);
        assert(enc[1 + d.len() as int + 1] == 10);
    }
    assert(is_crlf_at(s, e));
    assert forall|k: int| 1 <= k < e implies !#[trigger] is_crlf_at(s, k) by {
        assert(s[k] == enc[k]);
        assert(enc[k] == d[k - 1]);
        assert(is_digit(d[k - 1]));
    }
    lemma_find_crlf_exact(s, 1, e);
    let ls = s.subrange(1, e);
    assert(ls =~= d) by {
        assert forall|k: int| 0 <= k < d.len() implies ls[k] == d[k] by {
            assert(s[1 + k] == enc[1 + k]);
            assert(enc[1 + k] == d[k]);
        }
    }
    assert(dec_val(ls) == blob.len());
    assert(s.len() >= e + 2 + blob.len());
    let q = s.subrange(e + 2, e + 2 + blob.len() as int);
    assert(q =~= blob) by {
        assert forall|k: int| 0 <= k < blob.len() implies q[k] == blob[k] by {
            assert(s[1 + d.len() as int + 2 + k] == enc[1 + d.len() as int + 2 + k]);
            assert(enc[1 + d.len() as int + 2 + k] == blob[k]);
        }
    }
}

/// Streaming tolerance: feed any strict prefix of a well-formed frame's
/// wire form and the decoder asks for more bytes; feed the whole form
/// and it reads exactly that one frame, consuming the whole buffer.
pub proof fn lemma_streaming_tolerance(f: FrameV, m: int)
    requires
        frame_wf(f),
        0 <= m <= encode_frame(f).len(),
    ensures
        m < encode_frame(f).len() ==> spec_decode_stream(encode_frame(f).subrange(0, m), 0)
            == StreamV::Done(seq![], 0),
        m == encode_frame(f).len() ==> spec_decode_stream(encode_frame(f), 0) == StreamV::Done(
            seq![f],
            m,
        ),
{
    let enc = encode_frame(f);
    if m < enc.len() {
        let s = enc.subrange(0, m);
        assert(seg_at(s, 0, enc.subrange(0, s.len() - 0))) by {
            assert(enc.subrange(0, s.len() - 0) =~= s);
            assert forall|k: int| 0 <= k < s.len() implies s[0 + k] == #[trigger] s[k] by {}
        }
        lemma_decode_prefix(s, 0, f);
    } else {
        lemma_decode_of_encode(f, Seq::empty());
        let s = enc + Seq::<u8>::empty();
        assert(s =~= enc);
        assert(spec_decode_at(enc, 0) == StepV::Frame(f, enc.len() as int));
        assert(spec_decode_at(enc, enc.len() as int) == StepV::More);
        assert(spec_decode_stream(enc, enc.len() as int) == StreamV::Done(
            Seq::<FrameV>::empty(),
            enc.len() as int,
        ));
        assert(seq![f] + Seq::<FrameV>::empty() =~= seq![f]);
    }
}

} // verus!
