//! Small wire helpers kept from the server's public face: appending
//! RESP-encoded values to reply buffers, building replies from text, and
//! the canonical empty snapshot blob used in `FULLRESYNC` replies.

use vstd::prelude::*;

use crate::resp::bytes_view;
use crate::resp::emit_array;
use crate::resp::emit_bulk;
use crate::resp::emit_nil;
use crate::resp::encode_array;
use crate::resp::encode_bulk;
use crate::resp::encode_nil;
use crate::resp::spec_crlf;
use crate::digits::dec_rep;
use crate::digits::u64_to_dec;
use vstd::slice::slice_to_vec;
use vstd::string::StringSliceAdditionalSpecFns;

verus! {

/// The canonical 88-byte empty snapshot, as hex text: magic, version,
/// a few auxiliary fields, end-of-file opcode and checksum. A primary
/// answers `PSYNC` with these bytes when it has no snapshot of its own.
pub const EMPTY_RDB_HEX: &'static str = "524544495330303131fa0972656469732d76657205372e322e30fa0a72656469732d62697473c040fa056374696d65c26d08bc65fa08757365642d6d656dc2b0c41000fa08616f662d62617365c000fff06e3bfec0ff5aa2";

/// The value of one hex digit; bytes that are no hex digit count zero.
pub open spec fn hex_val(b: u8) -> u8 {
    if 48 <= b <= 57 {
        (b - 48) as u8
    } else if 97 <= b <= 102 {
        (b - 87) as u8
    } else if 65 <= b <= 70 {
        (b - 55) as u8
    } else {
        0
    }
}

/// The bytes spelled by hex text, two digits a byte; a trailing odd
/// digit is dropped.
pub open spec fn hex_decode(s: Seq<u8>) -> Seq<u8>
    decreases s.len(),
{
    if s.len() < 2 {
        seq![]
    } else {
        seq![(hex_val(s[0]) * 16 + hex_val(s[1])) as u8] + hex_decode(s.skip(2))
    }
}

/// Decodes hex text into bytes.
#[verifier::loop_isolation(false)]
pub fn hex_to_bytes(s: &Vec<u8>) -> (r: Vec<u8>)
    ensures
        r@ == hex_decode(s@),
{
    let mut r: Vec<u8> = Vec::new();
    let mut i: usize = 0;
    proof {
        assert(s@.subrange(0, s@.len() as int) =~= s@);
    }
    while i < s.len() && i + 1 < s.len()
        invariant
            i <= s.len(),
            hex_decode(s@) == r@ + hex_decode(s@.subrange(i as int, s@.len() as int)),
        decreases s.len() - i,
    {
        let a = s[i];
        let b = s[i + 1];
        let ha: u8 = if 48 <= a && a <= 57 {
            a - 48
        } else if 97 <= a && a <= 102 {
            a - 87
        } else if 65 <= a && a <= 70 {
            a - 55
        } else {
            0
        };
        let hb: u8 = if 48 <= b && b <= 57 {
            b - 48
        } else if 97 <= b && b <= 102 {
            b - 87
        } else if 65 <= b && b <= 70 {
            b - 55
        } else {
            0
        };
        proof {
            assert(ha == hex_val(s@[i as int]));
            assert(hb == hex_val(s@[i + 1 as int]));
        }
        let ghost pre = r@;
        r.push(ha * 16 + hb);
        proof {
            let rest = s@.subrange(i as int, s@.len() as int);
            let rest2 = s@.subrange(i + 2 as int, s@.len() as int);
            assert(rest[0] == s@[i as int]);
            assert(rest[1] == s@[i + 1 as int]);
            assert(rest.skip(2) =~= rest2);
            assert(hex_decode(rest) == seq![(hex_val(s@[i as int]) * 16 + hex_val(
                s@[i + 1 as int],
            )) as u8] + hex_decode(rest2));
            assert(r@ + hex_decode(rest2) =~= pre + hex_decode(rest));
        }
        i = i + 2;
    }
    proof {
        assert(hex_decode(s@.subrange(i as int, s@.len() as int)) =~= Seq::<u8>::empty());
        assert(r@ + Seq::<u8>::empty() =~= r@);
    }
    r
}

/// The canonical empty snapshot, as bytes.
pub fn empty_rdb_bytes() -> (r: Vec<u8>)
    ensures
        r@ == hex_decode(EMPTY_RDB_HEX.spec_bytes()),
{
    let hex: Vec<u8> = slice_to_vec(EMPTY_RDB_HEX.as_bytes());
    hex_to_bytes(&hex)
}

/// Appends one bulk string to a reply buffer.
pub fn get_bulk_string(buffer: &mut Vec<u8>, string: &Vec<u8>)
    ensures
        final(buffer)@ == old(buffer)@ + encode_bulk(string@),
{
    let mut one = emit_bulk(string);
    buffer.append(&mut one);
}

/// Appends one array of bulk strings to a reply buffer.
pub fn get_array(buffer: &mut Vec<u8>, array: &Vec<Vec<u8>>)
    ensures
        final(buffer)@ == old(buffer)@ + encode_array(bytes_view(array@)),
{
    let mut one = emit_array(array);
    buffer.append(&mut one);
}

/// A bulk-string reply holding `text`; empty text stands for the nil
/// reply, as the dispatcher's "nothing to answer" form.
pub fn build_resp_string(text: &str) -> (r: Vec<u8>)
    ensures
        text.spec_bytes().len() == 0 ==> r@ == encode_nil(),
        text.spec_bytes().len() > 0 ==> r@ == encode_bulk(text.spec_bytes()),
{
    let tb: Vec<u8> = slice_to_vec(text.as_bytes());
    if tb.len() == 0 {
        emit_nil()
    } else {
        emit_bulk(&tb)
    }
}

/// The words of `s`, split on single spaces; consecutive spaces yield
/// empty words, as text splitting does.
pub open spec fn split_sp(s: Seq<u8>) -> Seq<Seq<u8>>
    decreases s.len(),
{
    let i = find_sp(s, 0);
    if 0 <= i < s.len() {
        seq![s.subrange(0, i)] + split_sp(s.subrange(i + 1, s.len() as int))
    } else {
        seq![s]
    }
}

/// The position of the first space at or after `i`, or -1.
pub open spec fn find_sp(s: Seq<u8>, i: int) -> int
    decreases s.len() - i,
{
    if i < 0 || i >= s.len() {
        -1
    } else if s[i] == 32 {
        i
    } else {
        find_sp(s, i + 1)
    }
}

/// Each word as the dispatcher's string reply: a bulk string, or nil
/// for an empty word.
pub open spec fn encode_parts(parts: Seq<Seq<u8>>) -> Seq<u8>
    decreases parts.len(),
{
    if parts.len() == 0 {
        Seq::empty()
    } else {
        (if parts[0].len() == 0 {
            encode_nil()
        } else {
            encode_bulk(parts[0])
        }) + encode_parts(parts.drop_first())
    }
}

proof fn lemma_encode_parts_push(parts: Seq<Seq<u8>>, p: Seq<u8>)
    ensures
        encode_parts(parts.push(p)) == encode_parts(parts) + (if p.len() == 0 {
            encode_nil()
        } else {
            encode_bulk(p)
        }),
    decreases parts.len(),
{
    let one = if p.len() == 0 {
        encode_nil()
    } else {
        encode_bulk(p)
    };
    if parts.len() == 0 {
        assert(parts.push(p)[0] == p);
        assert(parts.push(p).drop_first() =~= Seq::<Seq<u8>>::empty());
        assert(encode_parts(Seq::<Seq<u8>>::empty()) == Seq::<u8>::empty());
        assert(one + Seq::<u8>::empty() =~= Seq::<u8>::empty() + one);
    } else {
        lemma_encode_parts_push(parts.drop_first(), p);
        assert(parts.push(p).drop_first() =~= parts.drop_first().push(p));
        assert(parts.push(p)[0] == parts[0]);
        let head = if parts[0].len() == 0 {
            encode_nil()
        } else {
            encode_bulk(parts[0])
        };
        assert(head + (encode_parts(parts.drop_first()) + one) =~= (head + encode_parts(
            parts.drop_first(),
        )) + one);
    }
}

/// Scans for the first space at or after `from`.
#[verifier::loop_isolation(false)]
fn find_sp_at(v: &Vec<u8>, from: usize) -> (r: Option<usize>)
    ensures
        match r {
            Some(e) => find_sp(v@, from as int) == e as int && from <= e && e < v.len(),
            None => find_sp(v@, from as int) == -1,
        },
{
    let mut i: usize = from;
    loop
        invariant
            from <= i,
            find_sp(v@, from as int) == find_sp(v@, i as int),
        decreases v.len() - i,
    {
        if i >= v.len() {
            return None;
        }
        if v[i] == 32 {
            return Some(i);
        }
        i = i + 1;
    }
}

/// Splits `v` into its space-separated words.
#[verifier::loop_isolation(false)]
fn split_words(v: &Vec<u8>) -> (r: Vec<Vec<u8>>)
    ensures
        bytes_view(r@) == split_sp(v@),
{
    let mut parts: Vec<Vec<u8>> = Vec::new();
    let mut start: usize = 0;
    proof {
        assert(bytes_view(parts@) =~= Seq::<Seq<u8>>::empty());
        assert(Seq::<Seq<u8>>::empty() + split_sp(v@.subrange(0, v@.len() as int)) =~= split_sp(
            v@.subrange(0, v@.len() as int),
        ));
        assert(v@.subrange(0, v@.len() as int) =~= v@);
    }
    loop
        invariant
            start <= v.len(),
            split_sp(v@) == bytes_view(parts@) + split_sp(
                v@.subrange(start as int, v@.len() as int),
            ),
        decreases v.len() - start,
    {
        let ghost suffix = v@.subrange(start as int, v@.len() as int);
        match find_sp_at(v, start) {
            None => {
                proof {
                    lemma_find_sp_shift(v@, start as int, 0);
                    if find_sp(suffix, 0) >= 0 {
                        assert(find_sp(v@, start as int + 0) == find_sp(suffix, 0) + start);
                        assert(false);
                    }
                    assert(split_sp(suffix) == seq![suffix]);
                }
                let word = crate::resp::copy_range(v, start, v.len());
                let ghost pre = parts@;
                parts.push(word);
                proof {
                    assert(bytes_view(parts@) =~= bytes_view(pre).push(suffix));
                    assert(bytes_view(pre).push(suffix) =~= bytes_view(pre) + seq![suffix]);
                    assert(bytes_view(pre) + (seq![suffix]) =~= split_sp(v@)) by {
                        assert(bytes_view(pre) + split_sp(suffix) =~= bytes_view(pre) + seq![
                            suffix,
                        ]);
                    }
                }
                return parts;
            },
            Some(e) => {
                proof {
                    lemma_find_sp_shift(v@, start as int, 0);
                    assert(find_sp(suffix, 0) == e - start);
                    assert(suffix.subrange(0, e - start) =~= v@.subrange(start as int, e as int));
                    assert(suffix.subrange(e - start + 1, suffix.len() as int) =~= v@.subrange(
                        e + 1 as int,
                        v@.len() as int,
                    ));
                }
                let word = crate::resp::copy_range(v, start, e);
                let ghost pre = parts@;
                parts.push(word);
                proof {
                    assert(bytes_view(parts@) =~= bytes_view(pre).push(v@.subrange(
                        start as int,
                        e as int,
                    )));
                    assert(bytes_view(pre) + (seq![v@.subrange(start as int, e as int)] + split_sp(
                        v@.subrange(e + 1 as int, v@.len() as int),
                    )) =~= (bytes_view(pre) + seq![v@.subrange(start as int, e as int)])
                        + split_sp(v@.subrange(e + 1 as int, v@.len() as int)));
                    assert(bytes_view(pre).push(v@.subrange(start as int, e as int)) =~= bytes_view(
                        pre,
                    ) + seq![v@.subrange(start as int, e as int)]);
                }
                start = e + 1;
            },
        }
    }
}

/// The space-offset scan agrees with the scan over the suffix.
proof fn lemma_find_sp_shift(s: Seq<u8>, base: int, i: int)
    requires
        0 <= base <= s.len(),
        0 <= i,
    ensures
        ({
            let suffix = s.subrange(base, s.len() as int);
            find_sp(s, base + i) == if find_sp(suffix, i) < 0 {
                -1
            } else {
                find_sp(suffix, i) + base
            }
        }),
    decreases s.len() - base - i,
{
    let suffix = s.subrange(base, s.len() as int);
    if base + i >= s.len() {
    } else if s[base + i] == 32 {
        assert(suffix[i] == s[base + i]);
    } else {
        assert(suffix[i] == s[base + i]);
        lemma_find_sp_shift(s, base, i + 1);
    }
}

/// An array reply built from space-separated text: the word count, then
/// each word as a bulk string (an empty word as nil). Callers hand in
/// command words, which hold no spaces of their own.
pub fn build_resp_array(command: &str) -> (r: Vec<u8>)
    ensures
        r@ == seq![42u8] + dec_rep(split_sp(command.spec_bytes()).len()) + spec_crlf()
            + encode_parts(split_sp(command.spec_bytes())),
{
    let cb: Vec<u8> = slice_to_vec(command.as_bytes());
    let parts = split_words(&cb);
    let mut r: Vec<u8> = Vec::new();
    r.push(42);
    let mut digits = u64_to_dec(parts.len() as u64);
    r.append(&mut digits);
    r.push(13);
    r.push(10);
    proof {
        assert(bytes_view(parts@).len() == parts@.len());
    }
    let ghost header = seq![42u8] + dec_rep(split_sp(command.spec_bytes()).len()) + spec_crlf();
    proof {
        assert(r@ =~= header + encode_parts(bytes_view(parts@).subrange(0, 0)));
    }
    let mut i: usize = 0;
    while i < parts.len()
        invariant
            i <= parts@.len(),
            r@ =~= header + encode_parts(bytes_view(parts@).subrange(0, i as int)),
        decreases parts@.len() - i,
    {
        let mut one = if parts[i].len() == 0 {
            emit_nil()
        } else {
            emit_bulk(&parts[i])
        };
        r.append(&mut one);
        proof {
            lemma_encode_parts_push(bytes_view(parts@).subrange(0, i as int), parts@[i as int]@);
            assert(bytes_view(parts@).subrange(0, i + 1 as int) =~= bytes_view(parts@).subrange(
                0,
                i as int,
            ).push(parts@[i as int]@));
        }
        i = i + 1;
    }
    proof {
        assert(bytes_view(parts@).subrange(0, parts@.len() as int) =~= bytes_view(parts@));
    }
    r
}

} // verus!
