//! The snapshot reader: a decoder for the RDB binary format used to warm
//! the store at startup.
//!
//! A snapshot is the ASCII magic `REDIS`, a four-digit version, and a run
//! of opcode-led sections: auxiliary metadata, table sizing hints,
//! expiry latches, database selectors, key-value pairs, and a trailing
//! checksum. The whole grammar is stated at the specification level and
//! the executable reader is proved to return exactly what the
//! specification-level reader yields.

use vstd::prelude::*;

use crate::digits::all_digits;
use crate::digits::dec_rep;
use crate::digits::dec_val;
use crate::digits::is_digit;
use crate::digits::lemma_dec_val_bound;
use crate::digits::pow10;
use crate::digits::u64_to_dec;
use crate::resp::copy_range;

verus! {

/// A decoded value. Only byte-string values are ever produced by this
/// core; the remaining kinds name the value-type bytes the format
/// defines, and a snapshot holding one is refused as unhandled.
#[derive(Clone, Debug)]
pub enum DataType {
    String(Vec<u8>),
    List,
    SetData,
    SortedSet,
    Hash,
    ZipMap,
    ZipList,
    IntSet,
    SortedSetZipList,
    HashMapZipList,
    ListQuickList,
}

/// The mathematical value of a [`DataType`].
pub ghost enum DataTypeV {
    String(Seq<u8>),
    List,
    SetData,
    SortedSet,
    Hash,
    ZipMap,
    ZipList,
    IntSet,
    SortedSetZipList,
    HashMapZipList,
    ListQuickList,
}

impl View for DataType {
    type V = DataTypeV;

    open spec fn view(&self) -> DataTypeV {
        match self {
            DataType::String(s) => DataTypeV::String(s@),
            DataType::List => DataTypeV::List,
            DataType::SetData => DataTypeV::SetData,
            DataType::SortedSet => DataTypeV::SortedSet,
            DataType::Hash => DataTypeV::Hash,
            DataType::ZipMap => DataTypeV::ZipMap,
            DataType::ZipList => DataTypeV::ZipList,
            DataType::IntSet => DataTypeV::IntSet,
            DataType::SortedSetZipList => DataTypeV::SortedSetZipList,
            DataType::HashMapZipList => DataTypeV::HashMapZipList,
            DataType::ListQuickList => DataTypeV::ListQuickList,
        }
    }
}

/// One key-value pair read from the snapshot: the database it selects
/// into, the key, the value, and the absolute expiry latched for it, in
/// milliseconds since the epoch.
#[derive(Clone, Debug)]
pub struct RdbEntry {
    pub db: u8,
    pub key: Vec<u8>,
    pub value: DataType,
    pub expiry: Option<u64>,
}

/// The mathematical value of an [`RdbEntry`].
pub ghost struct RdbEntryV {
    pub db: u8,
    pub key: Seq<u8>,
    pub value: DataTypeV,
    pub expiry: Option<u64>,
}

impl View for RdbEntry {
    type V = RdbEntryV;

    open spec fn view(&self) -> RdbEntryV {
        RdbEntryV { db: self.db, key: self.key@, value: self.value@, expiry: self.expiry }
    }
}

/// A decoded snapshot: the format version, the auxiliary metadata
/// pairs, and every key-value pair in file order. Later pairs for the
/// same key override earlier ones when the store ingests them.
#[derive(Debug)]
pub struct RdbData {
    pub rdb_version: u16,
    pub metadata: Vec<(Vec<u8>, Vec<u8>)>,
    pub entries: Vec<RdbEntry>,
}

/// The mathematical value of an [`RdbData`].
pub ghost struct RdbDataV {
    pub rdb_version: u16,
    pub metadata: Seq<(Seq<u8>, Seq<u8>)>,
    pub entries: Seq<RdbEntryV>,
}

impl View for RdbData {
    type V = RdbDataV;

    open spec fn view(&self) -> RdbDataV {
        RdbDataV {
            rdb_version: self.rdb_version,
            metadata: Seq::new(self.metadata@.len(), |i: int| (self.metadata@[i].0@, self.metadata@[i].1@)),
            entries: Seq::new(self.entries@.len(), |i: int| self.entries@[i]@),
        }
    }
}

/// Why a snapshot was refused.
#[derive(Clone, Copy, Debug, PartialEq, Eq, Structural)]
pub enum RdbReadError {
    /// The file does not open with the `REDIS` magic.
    NotRedisDatabase,
    /// The file ends inside a section.
    UnexpectedEndOfFile,
    /// The four bytes after the magic are not a decimal version.
    InvalidVersion,
    /// A length byte with an undefined tag. The two-bit tag covers every
    /// byte, so the reader never produces this; it names the format's
    /// failure for completeness.
    InvalidLengthEncoding(u8),
    /// A length was required but the length byte named the special
    /// string format.
    SpecialFormatInvalidIntEncoded,
    /// An expiry section led by a byte that is neither of the two
    /// expiry opcodes.
    InvalidExpiryTimestampFlag(u8),
    /// A key-value pair or an expiry latch before any database was
    /// selected.
    AttemptReadKeyWithoutDatabaseSelected,
    /// A special-format string whose low bits name no defined form.
    InvalidSpecialFormat(u8),
    /// An LZF-compressed string; this core does not decompress.
    CompressedStringNotImplemented,
    /// A value of a kind this core does not surface.
    UnhandledValueType(u8),
}

/// How the first byte of a length encoding asks for the rest to be
/// read.
#[derive(Clone, Copy, Debug, PartialEq, Eq, Structural)]
pub enum LengthEncoding {
    /// Tag `00`: the six remaining bits are the length.
    Remaining6Bits,
    /// Tag `01`: the six remaining bits and one more byte, big-endian.
    RemainingAndNextByte,
    /// Tag `10`: the next four bytes, little-endian.
    DiscardRemainingGetNext4Bytes,
    /// Tag `11`: a special string format, not a length.
    SpecialFormat,
}

/// An expiry timestamp as it stands in the file.
#[derive(Clone, Copy, Debug, PartialEq, Eq, Structural)]
pub enum ExpiryTimestamp {
    Seconds(u32),
    Milliseconds(u64),
}

// ------------------------------------------------------------------
// The specification-level reader.
// ------------------------------------------------------------------

/// Two bytes little-endian.
pub open spec fn le16(s: Seq<u8>, i: int) -> nat {
    (s[i + 1] * 0x100 + s[i]) as nat
}

/// Four bytes little-endian.
pub open spec fn le32(s: Seq<u8>, i: int) -> nat {
    (((s[i + 3] * 0x100 + s[i + 2]) * 0x100 + s[i + 1]) * 0x100 + s[i]) as nat
}

/// Eight bytes little-endian.
pub open spec fn le64(s: Seq<u8>, i: int) -> nat {
    (((((((s[i + 7] * 0x100 + s[i + 6]) * 0x100 + s[i + 5]) * 0x100 + s[i + 4]) * 0x100 + s[i + 3])
        * 0x100 + s[i + 2]) * 0x100 + s[i + 1]) * 0x100 + s[i]) as nat
}

/// The decimal numeral of a possibly negative integer.
pub open spec fn int_str(v: int) -> Seq<u8> {
    if v < 0 {
        seq![45u8] + dec_rep((-v) as nat)
    } else {
        dec_rep(v as nat)
    }
}

/// The `REDIS` magic.
pub open spec fn rdb_magic() -> Seq<u8> {
    seq![82u8, 69u8, 68u8, 73u8, 83u8]
}

/// What reading one piece of the file yields: a value and the position
/// after it, or the error the file earns.
pub ghost enum RStep<T> {
    Fail(RdbReadError),
    Done(T, int),
}

/// Reads the length byte at `i`: the two top bits pick the form, the
/// low six bits ride along.
pub open spec fn spec_read_len_enc(s: Seq<u8>, i: int) -> RStep<(LengthEncoding, u8)> {
    if i >= s.len() {
        RStep::Fail(RdbReadError::UnexpectedEndOfFile)
    } else {
        let b = s[i];
        let rem = b & 0x3f;
        let tag = b >> 6;
        let enc = if tag == 0 {
            LengthEncoding::Remaining6Bits
        } else if tag == 1 {
            LengthEncoding::RemainingAndNextByte
        } else if tag == 2 {
            LengthEncoding::DiscardRemainingGetNext4Bytes
        } else {
            LengthEncoding::SpecialFormat
        };
        RStep::Done((enc, rem), i + 1)
    }
}

/// Turns a length form into the length itself, reading what more it
/// asks for. The special string format is no length.
pub open spec fn spec_interpret_len(s: Seq<u8>, i: int, enc: LengthEncoding, rem: u8) -> RStep<
    nat,
> {
    match enc {
        LengthEncoding::Remaining6Bits => RStep::Done(rem as nat, i),
        LengthEncoding::RemainingAndNextByte => if i < s.len() {
            RStep::Done((rem * 0x100 + s[i]) as nat, i + 1)
        } else {
            RStep::Fail(RdbReadError::UnexpectedEndOfFile)
        },
        LengthEncoding::DiscardRemainingGetNext4Bytes => if i + 4 <= s.len() {
            RStep::Done(le32(s, i), i + 4)
        } else {
            RStep::Fail(RdbReadError::UnexpectedEndOfFile)
        },
        LengthEncoding::SpecialFormat => RStep::Fail(RdbReadError::SpecialFormatInvalidIntEncoded),
    }
}

/// Reads a length-encoded integer: a length byte and its
/// interpretation.
pub open spec fn spec_read_len_int(s: Seq<u8>, i: int) -> RStep<nat> {
    match spec_read_len_enc(s, i) {
        RStep::Fail(e) => RStep::Fail(e),
        RStep::Done((enc, rem), j) => spec_interpret_len(s, j, enc, rem),
    }
}

/// Reads a string: either a length followed by that many raw bytes, or
/// a special-format integer stored as its decimal numeral. Compressed
/// strings are refused.
pub open spec fn spec_read_string(s: Seq<u8>, i: int) -> RStep<Seq<u8>> {
    match spec_read_len_enc(s, i) {
        RStep::Fail(e) => RStep::Fail(e),
        RStep::Done((enc, rem), j) => {
            if enc == LengthEncoding::SpecialFormat {
                if rem == 0 {
                    if j < s.len() {
                        let v = if s[j] < 0x80 {
                            s[j] as int
                        } else {
                            s[j] - 0x100
                        };
                        RStep::Done(int_str(v), j + 1)
                    } else {
                        RStep::Fail(RdbReadError::UnexpectedEndOfFile)
                    }
                } else if rem == 1 {
                    if j + 2 <= s.len() {
                        let u = le16(s, j);
                        let v = if u < 0x8000 {
                            u as int
                        } else {
                            u - 0x10000
                        };
                        RStep::Done(int_str(v), j + 2)
                    } else {
                        RStep::Fail(RdbReadError::UnexpectedEndOfFile)
                    }
                } else if rem == 2 {
                    if j + 4 <= s.len() {
                        let u = le32(s, j);
                        let v = if u < 0x80000000 {
                            u as int
                        } else {
                            u - 0x100000000
                        };
                        RStep::Done(int_str(v), j + 4)
                    } else {
                        RStep::Fail(RdbReadError::UnexpectedEndOfFile)
                    }
                } else if rem == 3 {
                    RStep::Fail(RdbReadError::CompressedStringNotImplemented)
                } else {
                    RStep::Fail(RdbReadError::InvalidSpecialFormat(rem))
                }
            } else {
                match spec_interpret_len(s, j, enc, rem) {
                    RStep::Fail(e) => RStep::Fail(e),
                    RStep::Done(n, j2) => if j2 + n <= s.len() {
                        RStep::Done(s.subrange(j2, j2 + n), j2 + n)
                    } else {
                        RStep::Fail(RdbReadError::UnexpectedEndOfFile)
                    },
                }
            }
        },
    }
}

/// Reads the expiry that follows an expiry opcode: seconds as four
/// little-endian bytes, milliseconds as eight.
pub open spec fn spec_read_expiry(s: Seq<u8>, i: int, opcode: u8) -> RStep<ExpiryTimestamp> {
    if opcode == 0xFD {
        if i + 4 <= s.len() {
            RStep::Done(ExpiryTimestamp::Seconds(le32(s, i) as u32), i + 4)
        } else {
            RStep::Fail(RdbReadError::UnexpectedEndOfFile)
        }
    } else if opcode == 0xFC {
        if i + 8 <= s.len() {
            RStep::Done(ExpiryTimestamp::Milliseconds(le64(s, i) as u64), i + 8)
        } else {
            RStep::Fail(RdbReadError::UnexpectedEndOfFile)
        }
    } else {
        RStep::Fail(RdbReadError::InvalidExpiryTimestampFlag(opcode))
    }
}

/// The absolute milliseconds an expiry stands for.
pub open spec fn expiry_ms(e: ExpiryTimestamp) -> u64 {
    match e {
        ExpiryTimestamp::Seconds(sec) => (sec * 1000) as u64,
        ExpiryTimestamp::Milliseconds(ms) => ms,
    }
}

/// Reads a key and its value, the value type already known from the
/// leading byte. Only the byte-string type is surfaced.
pub open spec fn spec_read_kv(s: Seq<u8>, i: int, value_type: u8) -> RStep<(Seq<u8>, DataTypeV)> {
    match spec_read_string(s, i) {
        RStep::Fail(e) => RStep::Fail(e),
        RStep::Done(key, j) => {
            if value_type == 0 {
                match spec_read_string(s, j) {
                    RStep::Fail(e) => RStep::Fail(e),
                    RStep::Done(val, j2) => RStep::Done((key, DataTypeV::String(val)), j2),
                }
            } else {
                RStep::Fail(RdbReadError::UnhandledValueType(value_type))
            }
        },
    }
}

/// Reads the opcode-led body from position `i` to the end-of-file
/// opcode, with the database and expiry latches as they stand: the
/// metadata pairs and the key-value entries still to come, and the
/// position after the body.
pub open spec fn spec_read_body(
    s: Seq<u8>,
    i: int,
    cur_db: Option<u8>,
    next_exp: Option<u64>,
    version: u16,
) -> RStep<(Seq<(Seq<u8>, Seq<u8>)>, Seq<RdbEntryV>)>
    decreases s.len() - i,
{
    if i >= s.len() {
        RStep::Fail(RdbReadError::UnexpectedEndOfFile)
    } else {
        let op = s[i];
        if op == 0xFA {
            match spec_read_string(s, i + 1) {
                RStep::Fail(e) => RStep::Fail(e),
                RStep::Done(k, j) => match spec_read_string(s, j) {
                    RStep::Fail(e) => RStep::Fail(e),
                    RStep::Done(v, j2) => if i < j2 <= s.len() {
                        match spec_read_body(s, j2, cur_db, next_exp, version) {
                            RStep::Fail(e) => RStep::Fail(e),
                            RStep::Done((meta, entries), end) => RStep::Done(
                                (seq![(k, v)] + meta, entries),
                                end,
                            ),
                        }
                    } else {
                        RStep::Fail(RdbReadError::UnexpectedEndOfFile)
                    },
                },
            }
        } else if op == 0xFB {
            match spec_read_len_int(s, i + 1) {
                RStep::Fail(e) => RStep::Fail(e),
                RStep::Done(_, j) => match spec_read_len_int(s, j) {
                    RStep::Fail(e) => RStep::Fail(e),
                    RStep::Done(_, j2) => if i < j2 <= s.len() {
                        spec_read_body(s, j2, cur_db, next_exp, version)
                    } else {
                        RStep::Fail(RdbReadError::UnexpectedEndOfFile)
                    },
                },
            }
        } else if op == 0xFC || op == 0xFD {
            if cur_db is None {
                RStep::Fail(RdbReadError::AttemptReadKeyWithoutDatabaseSelected)
            } else {
                match spec_read_expiry(s, i + 1, op) {
                    RStep::Fail(e) => RStep::Fail(e),
                    RStep::Done(exp, j) => if i < j <= s.len() {
                        spec_read_body(s, j, cur_db, Some(expiry_ms(exp)), version)
                    } else {
                        RStep::Fail(RdbReadError::UnexpectedEndOfFile)
                    },
                }
            }
        } else if op == 0xFE {
            if i + 2 <= s.len() {
                spec_read_body(s, i + 2, Some(s[i + 1]), next_exp, version)
            } else {
                RStep::Fail(RdbReadError::UnexpectedEndOfFile)
            }
        } else if op == 0xFF {
            if version >= 5 {
                if i + 9 <= s.len() {
                    RStep::Done((seq![], seq![]), i + 9)
                } else {
                    RStep::Fail(RdbReadError::UnexpectedEndOfFile)
                }
            } else {
                RStep::Done((seq![], seq![]), i + 1)
            }
        } else {
            match cur_db {
                None => RStep::Fail(RdbReadError::AttemptReadKeyWithoutDatabaseSelected),
                Some(db) => match spec_read_kv(s, i + 1, op) {
                    RStep::Fail(e) => RStep::Fail(e),
                    RStep::Done((key, value), j) => if i < j <= s.len() {
                        match spec_read_body(s, j, cur_db, None, version) {
                            RStep::Fail(e) => RStep::Fail(e),
                            RStep::Done((meta, entries), end) => RStep::Done(
                                (
                                    meta,
                                    seq![RdbEntryV { db, key, value, expiry: next_exp }] + entries,
                                ),
                                end,
                            ),
                        }
                    } else {
                        RStep::Fail(RdbReadError::UnexpectedEndOfFile)
                    },
                },
            }
        }
    }
}

/// What a whole snapshot reads as: the magic, the version digits, then
/// the body.
pub open spec fn spec_read_rdb(s: Seq<u8>) -> Result<RdbDataV, RdbReadError> {
    if !(s.len() >= 5 && s.subrange(0, 5) == rdb_magic()) {
        Err(RdbReadError::NotRedisDatabase)
    } else if !(s.len() >= 9 && all_digits(s.subrange(5, 9))) {
        Err(RdbReadError::InvalidVersion)
    } else {
        let version = dec_val(s.subrange(5, 9)) as u16;
        match spec_read_body(s, 9, None, None, version) {
            RStep::Fail(e) => Err(e),
            RStep::Done((meta, entries), _) => Ok(
                RdbDataV { rdb_version: version, metadata: meta, entries },
            ),
        }
    }
}

// ------------------------------------------------------------------
// The executable reader.
// ------------------------------------------------------------------

/// Whether `n` more bytes stand at position `i` of `v`.
fn has(v: &Vec<u8>, i: usize, n: usize) -> (r: bool)
    ensures
        r == (i + n <= v@.len()),
{
    if v.len() < n {
        false
    } else {
        i <= v.len() - n
    }
}

/// Reads the length byte at `i`.
fn read_length_encoding(v: &Vec<u8>, i: usize) -> (r: Result<(LengthEncoding, u8), RdbReadError>)
    ensures
        r matches Ok(p) ==> i < v.len() && spec_read_len_enc(v@, i as int) == RStep::<
            (LengthEncoding, u8),
        >::Done(p, i + 1),
        r matches Err(e) ==> spec_read_len_enc(v@, i as int) == RStep::<
            (LengthEncoding, u8),
        >::Fail(e),
{
    if i >= v.len() {
        return Err(RdbReadError::UnexpectedEndOfFile);
    }
    let b = v[i];
    let rem = b & 0x3f;
    let tag = b >> 6;
    let enc = if tag == 0 {
        LengthEncoding::Remaining6Bits
    } else if tag == 1 {
        LengthEncoding::RemainingAndNextByte
    } else if tag == 2 {
        LengthEncoding::DiscardRemainingGetNext4Bytes
    } else {
        LengthEncoding::SpecialFormat
    };
    Ok((enc, rem))
}

/// Reads two bytes little-endian.
fn read_le16(v: &Vec<u8>, i: usize) -> (r: u64)
    requires
        i + 2 <= v.len(),
    ensures
        r == le16(v@, i as int),
        r < 0x10000,
{
    (v[i + 1] as u64) * 0x100 + (v[i] as u64)
}

/// Reads four bytes little-endian.
fn read_le32(v: &Vec<u8>, i: usize) -> (r: u64)
    requires
        i + 4 <= v.len(),
    ensures
        r == le32(v@, i as int),
        r < 0x100000000,
{
    (((v[i + 3] as u64) * 0x100 + (v[i + 2] as u64)) * 0x100 + (v[i + 1] as u64)) * 0x100 + (v[i]
        as u64)
}

/// Reads eight bytes little-endian.
fn read_le64(v: &Vec<u8>, i: usize) -> (r: u64)
    requires
        i + 8 <= v.len(),
    ensures
        r == le64(v@, i as int),
{
    let hi = read_le32(v, i + 4);
    let lo = read_le32(v, i);
    proof {
        assert(le64(v@, i as int) == le32(v@, i + 4 as int) * 0x100000000 + le32(v@, i as int));
    }
    hi * 0x100000000 + lo
}

/// Turns a length form into the length itself.
fn interpret_length_encoding(v: &Vec<u8>, i: usize, enc: LengthEncoding, rem: u8) -> (r: Result<
    (u64, usize),
    RdbReadError,
>)
    requires
        i <= v.len(),
    ensures
        r matches Ok(p) ==> spec_interpret_len(v@, i as int, enc, rem) == RStep::<nat>::Done(
            p.0 as nat,
            p.1 as int,
        ) && i <= p.1 <= v.len(),
        r matches Err(e) ==> spec_interpret_len(v@, i as int, enc, rem) == RStep::<nat>::Fail(e),
{
    match enc {
        LengthEncoding::Remaining6Bits => Ok((rem as u64, i)),
        LengthEncoding::RemainingAndNextByte => {
            if i < v.len() {
                Ok(((rem as u64) * 0x100 + (v[i] as u64), i + 1))
            } else {
                Err(RdbReadError::UnexpectedEndOfFile)
            }
        },
        LengthEncoding::DiscardRemainingGetNext4Bytes => {
            if has(v, i, 4) {
                Ok((read_le32(v, i), i + 4))
            } else {
                Err(RdbReadError::UnexpectedEndOfFile)
            }
        },
        LengthEncoding::SpecialFormat => Err(RdbReadError::SpecialFormatInvalidIntEncoded),
    }
}

/// Reads a length-encoded integer.
fn read_length_encoded_int(v: &Vec<u8>, i: usize) -> (r: Result<(u64, usize), RdbReadError>)
    requires
        i <= v.len(),
    ensures
        r matches Ok(p) ==> spec_read_len_int(v@, i as int) == RStep::<nat>::Done(
            p.0 as nat,
            p.1 as int,
        ) && i < p.1 <= v.len(),
        r matches Err(e) ==> spec_read_len_int(v@, i as int) == RStep::<nat>::Fail(e),
{
    let (enc, rem) = match read_length_encoding(v, i) {
        Ok(p) => p,
        Err(e) => {
            return Err(e);
        },
    };
    match interpret_length_encoding(v, i + 1, enc, rem) {
        Ok(p) => Ok(p),
        Err(e) => Err(e),
    }
}

/// Reads a string: raw length-prefixed bytes, or a special-format
/// integer rendered as its decimal numeral.
fn read_string_encoded(v: &Vec<u8>, i: usize) -> (r: Result<(Vec<u8>, usize), RdbReadError>)
    ensures
        r matches Ok(p) ==> spec_read_string(v@, i as int) == RStep::<Seq<u8>>::Done(
            p.0@,
            p.1 as int,
        ) && i < p.1 <= v.len(),
        r matches Err(e) ==> spec_read_string(v@, i as int) == RStep::<Seq<u8>>::Fail(e),
{
    let (enc, rem) = match read_length_encoding(v, i) {
        Ok(p) => p,
        Err(e) => {
            return Err(e);
        },
    };
    let j = i + 1;
    if matches!(enc, LengthEncoding::SpecialFormat) {
        if rem == 0 {
            if j < v.len() {
                let b = v[j];
                if b < 0x80 {
                    Ok((u64_to_dec(b as u64), j + 1))
                } else {
                    let mut out: Vec<u8> = Vec::new();
                    out.push(45);
                    let mut digits = u64_to_dec(0x100 - (b as u64));
                    out.append(&mut digits);
                    proof {
                        assert(out@ =~= int_str(v@[j as int] - 0x100));
                    }
                    Ok((out, j + 1))
                }
            } else {
                Err(RdbReadError::UnexpectedEndOfFile)
            }
        } else if rem == 1 {
            if has(v, j, 2) {
                let u = read_le16(v, j);
                if u < 0x8000 {
                    Ok((u64_to_dec(u), j + 2))
                } else {
                    let mut out: Vec<u8> = Vec::new();
                    out.push(45);
                    let mut digits = u64_to_dec(0x10000 - u);
                    out.append(&mut digits);
                    proof {
                        assert(out@ =~= int_str(le16(v@, j as int) - 0x10000));
                    }
                    Ok((out, j + 2))
                }
            } else {
                Err(RdbReadError::UnexpectedEndOfFile)
            }
        } else if rem == 2 {
            if has(v, j, 4) {
                let u = read_le32(v, j);
                if u < 0x80000000 {
                    Ok((u64_to_dec(u), j + 4))
                } else {
                    let mut out: Vec<u8> = Vec::new();
                    out.push(45);
                    let mut digits = u64_to_dec(0x100000000 - u);
                    out.append(&mut digits);
                    proof {
                        assert(out@ =~= int_str(le32(v@, j as int) - 0x100000000));
                    }
                    Ok((out, j + 4))
                }
            } else {
                Err(RdbReadError::UnexpectedEndOfFile)
            }
        } else if rem == 3 {
            Err(RdbReadError::CompressedStringNotImplemented)
        } else {
            Err(RdbReadError::InvalidSpecialFormat(rem))
        }
    } else {
        let (n, j2) = match interpret_length_encoding(v, j, enc, rem) {
            Ok(p) => p,
            Err(e) => {
                return Err(e);
            },
        };
        let remaining: usize = v.len() - j2;
        if (remaining as u64) < n {
            return Err(RdbReadError::UnexpectedEndOfFile);
        }
        let n_us = n as usize;
        let p = copy_range(v, j2, j2 + n_us);
        Ok((p, j2 + n_us))
    }
}

/// Reads the expiry that follows an expiry opcode.
fn read_expiry_timestamp(v: &Vec<u8>, i: usize, opcode: u8) -> (r: Result<
    (ExpiryTimestamp, usize),
    RdbReadError,
>)
    requires
        i <= v.len(),
    ensures
        r matches Ok(p) ==> spec_read_expiry(v@, i as int, opcode) == RStep::<
            ExpiryTimestamp,
        >::Done(p.0, p.1 as int) && i < p.1 <= v.len(),
        r matches Err(e) ==> spec_read_expiry(v@, i as int, opcode) == RStep::<
            ExpiryTimestamp,
        >::Fail(e),
{
    if opcode == 0xFD {
        if has(v, i, 4) {
            Ok((ExpiryTimestamp::Seconds(read_le32(v, i) as u32), i + 4))
        } else {
            Err(RdbReadError::UnexpectedEndOfFile)
        }
    } else if opcode == 0xFC {
        if has(v, i, 8) {
            Ok((ExpiryTimestamp::Milliseconds(read_le64(v, i)), i + 8))
        } else {
            Err(RdbReadError::UnexpectedEndOfFile)
        }
    } else {
        Err(RdbReadError::InvalidExpiryTimestampFlag(opcode))
    }
}

/// Reads a key and its value, the value-type byte already consumed.
fn read_key_value(v: &Vec<u8>, i: usize, value_type: u8) -> (r: Result<
    ((Vec<u8>, DataType), usize),
    RdbReadError,
>)
    ensures
        r matches Ok(p) ==> spec_read_kv(v@, i as int, value_type) == RStep::<
            (Seq<u8>, DataTypeV),
        >::Done((p.0.0@, p.0.1@), p.1 as int) && i < p.1 <= v.len(),
        r matches Err(e) ==> spec_read_kv(v@, i as int, value_type) == RStep::<
            (Seq<u8>, DataTypeV),
        >::Fail(e),
{
    let (key, j) = match read_string_encoded(v, i) {
        Ok(p) => p,
        Err(e) => {
            return Err(e);
        },
    };
    if value_type == 0 {
        let (val, j2) = match read_string_encoded(v, j) {
            Ok(p) => p,
            Err(e) => {
                return Err(e);
            },
        };
        Ok(((key, DataType::String(val)), j2))
    } else {
        Err(RdbReadError::UnhandledValueType(value_type))
    }
}

/// The view of the metadata pairs gathered so far.
pub open spec fn meta_view(m: Seq<(Vec<u8>, Vec<u8>)>) -> Seq<(Seq<u8>, Seq<u8>)> {
    Seq::new(m.len(), |i: int| (m[i].0@, m[i].1@))
}

/// The view of the entries gathered so far.
pub open spec fn entries_view(e: Seq<RdbEntry>) -> Seq<RdbEntryV> {
    Seq::new(e.len(), |i: int| e[i]@)
}

/// Glues already-gathered metadata and entries onto the rest of a body
/// read.
pub open spec fn prepend_body(
    m1: Seq<(Seq<u8>, Seq<u8>)>,
    e1: Seq<RdbEntryV>,
    x: RStep<(Seq<(Seq<u8>, Seq<u8>)>, Seq<RdbEntryV>)>,
) -> RStep<(Seq<(Seq<u8>, Seq<u8>)>, Seq<RdbEntryV>)> {
    match x {
        RStep::Fail(e) => RStep::Fail(e),
        RStep::Done((m, en), j) => RStep::Done((m1 + m, e1 + en), j),
    }
}

proof fn lemma_prepend_body_assoc(
    m1: Seq<(Seq<u8>, Seq<u8>)>,
    e1: Seq<RdbEntryV>,
    m2: Seq<(Seq<u8>, Seq<u8>)>,
    e2: Seq<RdbEntryV>,
    x: RStep<(Seq<(Seq<u8>, Seq<u8>)>, Seq<RdbEntryV>)>,
)
    ensures
        prepend_body(m1, e1, prepend_body(m2, e2, x)) == prepend_body(m1 + m2, e1 + e2, x),
{
    match x {
        RStep::Done((m, en), j) => {
            assert(m1 + (m2 + m) =~= (m1 + m2) + m);
            assert(e1 + (e2 + en) =~= (e1 + e2) + en);
        },
        _ => {},
    }
}

proof fn lemma_prepend_body_empty(x: RStep<(Seq<(Seq<u8>, Seq<u8>)>, Seq<RdbEntryV>)>)
    ensures
        prepend_body(seq![], seq![], x) == x,
{
    match x {
        RStep::Done((m, en), j) => {
            assert(seq![] + m =~= m);
            assert(seq![] + en =~= en);
        },
        _ => {},
    }
}

/// The snapshot reader.
pub struct RdbReader;

impl RdbReader {
    /// Whether the bytes open with the `REDIS` magic.
    pub fn is_rdb_file(bytes: &Vec<u8>) -> (r: bool)
        ensures
            r == (bytes@.len() >= 5 && bytes@.subrange(0, 5) == rdb_magic()),
    {
        if bytes.len() < 5 {
            return false;
        }
        let ok = bytes[0] == 82 && bytes[1] == 69 && bytes[2] == 68 && bytes[3] == 73 && bytes[4]
            == 83;
        proof {
            if ok {
                assert(bytes@.subrange(0, 5) =~= rdb_magic());
            } else {
                if bytes@.subrange(0, 5) == rdb_magic() {
                    assert(bytes@[0] == bytes@.subrange(0, 5)[0]);
                    assert(bytes@[1] == bytes@.subrange(0, 5)[1]);
                    assert(bytes@[2] == bytes@.subrange(0, 5)[2]);
                    assert(bytes@[3] == bytes@.subrange(0, 5)[3]);
                    assert(bytes@[4] == bytes@.subrange(0, 5)[4]);
                }
            }
        }
        ok
    }

    /// Decodes a whole snapshot.
    ///
    /// Returns exactly what the specification-level reader yields for
    /// these bytes: the version, the metadata pairs and every key-value
    /// entry in file order, or the error the file earns.
    #[verifier::loop_isolation(false)]
    pub fn read(bytes: &Vec<u8>) -> (r: Result<RdbData, RdbReadError>)
        ensures
            r matches Ok(d) ==> spec_read_rdb(bytes@) == Ok::<RdbDataV, RdbReadError>(d@),
            r matches Err(e) ==> spec_read_rdb(bytes@) == Err::<RdbDataV, RdbReadError>(e),
    {
        if !Self::is_rdb_file(bytes) {
            return Err(RdbReadError::NotRedisDatabase);
        }
        if bytes.len() < 9 {
            proof {
                if all_digits(bytes@.subrange(5, 9 as int)) {
                }
            }
            return Err(RdbReadError::InvalidVersion);
        }
        let ghost ds = bytes@.subrange(5, 9);
        let mut version: u64 = 0;
        let mut k: usize = 5;
        while k < 9
            invariant
                5 <= k <= 9,
                bytes@.len() >= 9,
                ds == bytes@.subrange(5, 9),
                forall|t: int| 0 <= t < k - 5 ==> is_digit(#[trigger] ds[t]),
                version == dec_val(ds.subrange(0, k - 5)),
            decreases 9 - k,
        {
            let d = bytes[k];
            proof {
                assert(ds[k - 5] == bytes@[k as int]);
            }
            if !(48 <= d && d <= 57) {
                proof {
                    assert(!is_digit(ds[k - 5]));
                }
                return Err(RdbReadError::InvalidVersion);
            }
            proof {
                let pre = ds.subrange(0, k - 5);
                let cur = ds.subrange(0, k - 5 + 1);
                assert(cur.drop_last() =~= pre);
                assert(cur.last() == ds[k - 5]);
                assert(all_digits(pre));
                lemma_dec_val_bound(pre);
                assert(pow10(4) == 10000 && pow10(3) == 1000 && pow10(2) == 100 && pow10(1) == 10
                    && pow10(0) == 1) by {
                    reveal_with_fuel(pow10, 5);
                }
                assert(pre.len() <= 4);
                assert(pow10(pre.len()) <= 10000) by {
                    if pre.len() == 0 {
                    } else if pre.len() == 1 {
                    } else if pre.len() == 2 {
                    } else if pre.len() == 3 {
                    } else {
                    }
                }
                assert(version < 10000);
            }
            version = version * 10 + ((d - 48) as u64);
            k = k + 1;
        }
        proof {
            assert(ds.subrange(0, 4) =~= ds);
            assert(all_digits(ds));
            lemma_dec_val_bound(ds);
            assert(pow10(4) == 10000) by {
                reveal_with_fuel(pow10, 5);
            }
        }
        let version: u16 = version as u16;
        let mut metadata: Vec<(Vec<u8>, Vec<u8>)> = Vec::new();
        let mut entries: Vec<RdbEntry> = Vec::new();
        let mut pos: usize = 9;
        let mut cur_db: Option<u8> = None;
        let mut next_exp: Option<u64> = None;
        proof {
            lemma_prepend_body_empty(spec_read_body(bytes@, 9, None, None, version));
            assert(meta_view(metadata@) =~= Seq::<(Seq<u8>, Seq<u8>)>::empty());
            assert(entries_view(entries@) =~= Seq::<RdbEntryV>::empty());
        }
        loop
            invariant
                9 <= pos <= bytes.len(),
                spec_read_body(bytes@, 9, None, None, version) == prepend_body(
                    meta_view(metadata@),
                    entries_view(entries@),
                    spec_read_body(bytes@, pos as int, cur_db, next_exp, version),
                ),
            decreases bytes.len() - pos,
        {
            let ghost rest = spec_read_body(bytes@, pos as int, cur_db, next_exp, version);
            if pos >= bytes.len() {
                return Err(RdbReadError::UnexpectedEndOfFile);
            }
            let op = bytes[pos];
            if op == 0xFA {
                let (mk, j) = match read_string_encoded(bytes, pos + 1) {
                    Ok(p) => p,
                    Err(e) => {
                        return Err(e);
                    },
                };
                let (mv, j2) = match read_string_encoded(bytes, j) {
                    Ok(p) => p,
                    Err(e) => {
                        return Err(e);
                    },
                };
                proof {
                    lemma_prepend_body_assoc(
                        meta_view(metadata@),
                        entries_view(entries@),
                        seq![(mk@, mv@)],
                        seq![],
                        spec_read_body(bytes@, j2 as int, cur_db, next_exp, version),
                    );
                    assert(rest == prepend_body(
                        seq![(mk@, mv@)],
                        seq![],
                        spec_read_body(bytes@, j2 as int, cur_db, next_exp, version),
                    ));
                }
                let ghost old_meta = metadata@;
                metadata.push((mk, mv));
                proof {
                    assert(meta_view(metadata@) =~= meta_view(old_meta) + seq![(mk@, mv@)]);
                    assert(entries_view(entries@) + Seq::<RdbEntryV>::empty() =~= entries_view(
                        entries@,
                    ));
                }
                pos = j2;
            } else if op == 0xFB {
                let (_sz1, j) = match read_length_encoded_int(bytes, pos + 1) {
                    Ok(p) => p,
                    Err(e) => {
                        return Err(e);
                    },
                };
                let (_sz2, j2) = match read_length_encoded_int(bytes, j) {
                    Ok(p) => p,
                    Err(e) => {
                        return Err(e);
                    },
                };
                pos = j2;
            } else if op == 0xFC || op == 0xFD {
                if matches!(cur_db, None) {
                    return Err(RdbReadError::AttemptReadKeyWithoutDatabaseSelected);
                }
                let (exp, j) = match read_expiry_timestamp(bytes, pos + 1, op) {
                    Ok(p) => p,
                    Err(e) => {
                        return Err(e);
                    },
                };
                let ms: u64 = match exp {
                    ExpiryTimestamp::Seconds(sec) => (sec as u64) * 1000,
                    ExpiryTimestamp::Milliseconds(ms) => ms,
                };
                next_exp = Some(ms);
                pos = j;
            } else if op == 0xFE {
                if has(bytes, pos, 2) {
                    cur_db = Some(bytes[pos + 1]);
                    pos = pos + 2;
                } else {
                    return Err(RdbReadError::UnexpectedEndOfFile);
                }
            } else if op == 0xFF {
                let end: usize = if version >= 5 {
                    if has(bytes, pos, 9) {
                        pos + 9
                    } else {
                        return Err(RdbReadError::UnexpectedEndOfFile);
                    }
                } else {
                    pos + 1
                };
                let data = RdbData { rdb_version: version, metadata, entries };
                proof {
                    assert(spec_read_body(bytes@, pos as int, cur_db, next_exp, version)
                        == RStep::<(Seq<(Seq<u8>, Seq<u8>)>, Seq<RdbEntryV>)>::Done(
                        (Seq::<(Seq<u8>, Seq<u8>)>::empty(), Seq::<RdbEntryV>::empty()),
                        end as int,
                    ));
                    assert(meta_view(data.metadata@) + Seq::<(Seq<u8>, Seq<u8>)>::empty()
                        =~= meta_view(data.metadata@));
                    assert(entries_view(data.entries@) + Seq::<RdbEntryV>::empty()
                        =~= entries_view(data.entries@));
                    assert(data@.metadata =~= meta_view(data.metadata@));
                    assert(data@.entries =~= entries_view(data.entries@));
                }
                return Ok(data);
            } else {
                let db = match cur_db {
                    Some(db) => db,
                    None => {
                        return Err(RdbReadError::AttemptReadKeyWithoutDatabaseSelected);
                    },
                };
                let ((key, value), j) = match read_key_value(bytes, pos + 1, op) {
                    Ok(p) => p,
                    Err(e) => {
                        return Err(e);
                    },
                };
                let entry = RdbEntry { db, key, value, expiry: next_exp };
                proof {
                    lemma_prepend_body_assoc(
                        meta_view(metadata@),
                        entries_view(entries@),
                        seq![],
                        seq![entry@],
                        spec_read_body(bytes@, j as int, cur_db, None, version),
                    );
                    assert(rest == prepend_body(
                        seq![],
                        seq![entry@],
                        spec_read_body(bytes@, j as int, cur_db, None, version),
                    ));
                }
                let ghost old_entries = entries@;
                entries.push(entry);
                proof {
                    assert(entries_view(entries@) =~= entries_view(old_entries) + seq![entry@]);
                    assert(meta_view(metadata@) + Seq::<(Seq<u8>, Seq<u8>)>::empty() =~= meta_view(
                        metadata@,
                    ));
                }
                next_exp = None;
                pos = j;
            }
        }
    }
}

} // verus!
