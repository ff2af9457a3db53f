//! The binary layout of the database: a tag byte, then a length-prefixed text,
//! a little-endian number, a boolean byte or a table of key/value pairs.

use vstd::prelude::*;
use vstd::slice::*;
use vstd::utf8::*;
use byteorder::{ByteOrder, LittleEndian};
use crate::text::{copy_text, string_from_utf8};
use crate::value::{
    bool_text, bool_word, put, table_insert, table_view, Entries, LuaModel, LuaValue,
};

verus! {

/// Why a byte stream or a value was refused.
#[derive(Clone, Copy, Debug, PartialEq, Eq, Structural)]
pub enum CodecError {
    /// The bytes at the offset are no value: an unknown tag, a buffer that ends
    /// too early, a text that is not UTF-8, or a negative count.
    Malformed,
    /// The stream holds errors and not one value.
    Unparseable,
    /// A text or a table is too long for the 32-bit length that precedes it.
    Oversized,
    /// A table's key is a number with these bits, and no text was given for it.
    UnnamedNumber(u64),
}

/// The tag of a text, the letter `S`.
pub const TAG_TEXT: u8 = 0x53;

/// The tag of a number, the letter `N`.
pub const TAG_NUMBER: u8 = 0x4E;

/// The tag of a boolean, the letter `B`.
pub const TAG_BOOLEAN: u8 = 0x42;

/// The tag of a table, the letter `T`.
pub const TAG_TABLE: u8 = 0x54;

/// The largest length that the layout can state.
pub const MAX_LENGTH: usize = 0x7fff_ffff;

/// The number that bytes denote, the lowest byte first.
pub open spec fn le_number(bytes: Seq<u8>) -> nat
    decreases bytes.len(),
{
    if bytes.len() == 0 {
        0
    } else {
        bytes[0] as nat + 256 * le_number(bytes.drop_first())
    }
}

/// The `count` lowest bytes of a number, the lowest byte first.
pub open spec fn le_bytes(n: nat, count: nat) -> Seq<u8>
    decreases count,
{
    if count == 0 {
        Seq::empty()
    } else {
        seq![(n % 256) as u8] + le_bytes(n / 256, (count - 1) as nat)
    }
}

/// The integer that a number below 2 to the 32 denotes as 32 bits with a sign.
pub open spec fn signed32(v: nat) -> int {
    if v < 0x8000_0000 {
        v as int
    } else {
        v - 0x1_0000_0000
    }
}

/// The number below 2 to the 32 that has the 32 bits of a signed integer.
pub open spec fn unsigned32(n: int) -> nat {
    if n >= 0 {
        n as nat
    } else {
        (n + 0x1_0000_0000) as nat
    }
}

/// `byteorder::LittleEndian::read_u64`: the number that the first eight bytes
/// of `buf` denote, the lowest byte first. It panics on a shorter buffer.
#[verifier::external_body]
fn le_read_u64(buf: &[u8]) -> (x: u64)
    requires
        buf@.len() >= 8,
    ensures
        x == le_number(buf@.subrange(0, 8)),
{
    LittleEndian::read_u64(buf)
}

/// `byteorder::LittleEndian::read_i32`: the number that the first four bytes
/// of `buf` denote, the lowest byte first, taken as 32 bits with a sign. It
/// panics on a shorter buffer.
#[verifier::external_body]
fn le_read_i32(buf: &[u8]) -> (x: i32)
    requires
        buf@.len() >= 4,
    ensures
        x == signed32(le_number(buf@.subrange(0, 4))),
{
    LittleEndian::read_i32(buf)
}

/// `byteorder::LittleEndian::write_u64` on a buffer of eight bytes: the eight
/// bytes of `n`, the lowest byte first.
#[verifier::external_body]
fn le_bytes_u64(n: u64) -> (r: Vec<u8>)
    ensures
        r@ == le_bytes(n as nat, 8),
{
    let mut buf = vec![0u8; 8];
    LittleEndian::write_u64(&mut buf, n);
    buf
}

/// `byteorder::LittleEndian::write_i32` on a buffer of four bytes: the four
/// bytes of the 32 bits of `n`, the lowest byte first.
#[verifier::external_body]
fn le_bytes_i32(n: i32) -> (r: Vec<u8>)
    ensures
        r@ == le_bytes(unsigned32(n as int), 4),
{
    let mut buf = vec![0u8; 4];
    LittleEndian::write_i32(&mut buf, n);
    buf
}

// ---------------------------------------------------------------------------
// The layout, as functions on byte sequences
// ---------------------------------------------------------------------------

/// What stands at an offset of a byte stream.
pub enum Decoded<T> {
    /// A value, and the offset after its last byte.
    Value(T, int),
    /// No value.
    Malformed,
    /// A table whose key is a number with these bits, for which no text is known.
    Unnamed(u64),
}

/// The texts of the numbers that may stand as keys: pairs of a number's bits and
/// its decimal notation.
pub type Names = Seq<(u64, Seq<char>)>;

/// The model of a list of names.
pub open spec fn names_view(names: Seq<(u64, String)>) -> Names {
    Seq::new(names.len(), |i: int| (names[i].0, names[i].1@))
}

/// The text of the first name given for `bits`.
pub open spec fn name_of(names: Names, bits: u64) -> Option<Seq<char>>
    decreases names.len(),
{
    if names.len() == 0 {
        None
    } else if names[0].0 == bits {
        Some(names[0].1)
    } else {
        name_of(names.drop_first(), bits)
    }
}

/// The text under which a value stands as a key: a text as it is, a boolean
/// spelled out, a number by its name, a table as `unknown`.
pub open spec fn key_text(k: LuaModel, names: Names) -> Result<Seq<char>, u64> {
    match k {
        LuaModel::Text(s) => Ok(s),
        LuaModel::Number(n) => match name_of(names, n) {
            Some(t) => Ok(t),
            None => Err(n),
        },
        LuaModel::Boolean(b) => Ok(bool_text(b)),
        LuaModel::Table(_) => Ok("unknown"@),
    }
}

/// 128 to the power `g`.
pub open spec fn pow128(g: nat) -> nat
    decreases g,
{
    if g == 0 {
        1
    } else {
        128 * pow128((g - 1) as nat)
    }
}

/// A length in chunks of seven bits, low chunk first, each byte but the last
/// with its high bit set. At most `groups` bytes are read.
pub open spec fn read_varint(bytes: Seq<u8>, pos: int, groups: nat) -> Option<(nat, int)>
    decreases groups,
{
    if groups == 0 || pos < 0 || pos >= bytes.len() {
        None
    } else if bytes[pos] < 128 {
        Some((bytes[pos] as nat, pos + 1))
    } else {
        match read_varint(bytes, pos + 1, (groups - 1) as nat) {
            Some((v, next)) => Some(((bytes[pos] - 128 + 128 * v) as nat, next)),
            None => None,
        }
    }
}

/// The bytes of a length: chunks of seven bits, low chunk first.
pub open spec fn write_varint(n: nat) -> Seq<u8>
    decreases n,
{
    if n < 128 {
        seq![n as u8]
    } else {
        seq![(n % 128 + 128) as u8] + write_varint(n / 128)
    }
}

/// A text: its length in bytes, then its UTF-8 bytes.
pub open spec fn read_text(bytes: Seq<u8>, pos: int) -> Option<(Seq<char>, int)> {
    match read_varint(bytes, pos, 5) {
        Some((n, p)) => if n <= MAX_LENGTH && p + n <= bytes.len() && valid_utf8(
            bytes.subrange(p, p + n),
        ) {
            Some((decode_utf8(bytes.subrange(p, p + n)), p + n))
        } else {
            None
        },
        None => None,
    }
}

/// The bytes of a text.
pub open spec fn encode_text(s: Seq<char>) -> Seq<u8> {
    write_varint(encode_utf8(s).len()) + encode_utf8(s)
}

/// The count that a table states: four bytes, the lowest first, as 32 bits
/// with a sign.
pub open spec fn count_at(bytes: Seq<u8>, pos: int) -> int {
    signed32(le_number(bytes.subrange(pos, pos + 4)))
}

/// The table that is made of entries that were read.
pub open spec fn table_of(d: Decoded<Entries>) -> Decoded<LuaModel> {
    match d {
        Decoded::Value(es, next) => Decoded::Value(LuaModel::Table(es), next),
        Decoded::Malformed => Decoded::Malformed,
        Decoded::Unnamed(b) => Decoded::Unnamed(b),
    }
}

/// The value that stands at `pos`.
pub open spec fn spec_read_value(bytes: Seq<u8>, pos: int, names: Names) -> Decoded<LuaModel>
    decreases bytes.len() - pos, 0nat,
{
    if pos < 0 || pos >= bytes.len() {
        Decoded::Malformed
    } else if bytes[pos] == TAG_TEXT {
        match read_text(bytes, pos + 1) {
            Some((s, next)) => Decoded::Value(LuaModel::Text(s), next),
            None => Decoded::Malformed,
        }
    } else if bytes[pos] == TAG_NUMBER {
        if pos + 9 <= bytes.len() {
            Decoded::Value(
                LuaModel::Number(le_number(bytes.subrange(pos + 1, pos + 9)) as u64),
                pos + 9,
            )
        } else {
            Decoded::Malformed
        }
    } else if bytes[pos] == TAG_BOOLEAN {
        if pos + 2 <= bytes.len() {
            Decoded::Value(LuaModel::Boolean(bytes[pos + 1] != 0), pos + 2)
        } else {
            Decoded::Malformed
        }
    } else if bytes[pos] == TAG_TABLE {
        if pos + 9 <= bytes.len() && count_at(bytes, pos + 5) >= 0 {
            table_of(
                spec_read_entries(
                    bytes,
                    pos + 9,
                    count_at(bytes, pos + 5) as nat,
                    Seq::empty(),
                    names,
                ),
            )
        } else {
            Decoded::Malformed
        }
    } else {
        Decoded::Malformed
    }
}

/// `left` pairs of a key and a value from `pos` on, put one after the other
/// into `acc`: a key that comes again replaces the value it had.
pub open spec fn spec_read_entries(
    bytes: Seq<u8>,
    pos: int,
    left: nat,
    acc: Entries,
    names: Names,
) -> Decoded<Entries>
    decreases bytes.len() - pos, left + 1,
{
    if left == 0 {
        Decoded::Value(acc, pos)
    } else {
        match spec_read_value(bytes, pos, names) {
            Decoded::Value(k, p1) => if pos < p1 <= bytes.len() {
                match key_text(k, names) {
                    Ok(key) => match spec_read_value(bytes, p1, names) {
                        Decoded::Value(v, p2) => if p1 < p2 <= bytes.len() {
                            spec_read_entries(
                                bytes,
                                p2,
                                (left - 1) as nat,
                                put(acc, key, v),
                                names,
                            )
                        } else {
                            Decoded::Malformed
                        },
                        Decoded::Malformed => Decoded::Malformed,
                        Decoded::Unnamed(b) => Decoded::Unnamed(b),
                    },
                    Err(bits) => Decoded::Unnamed(bits),
                }
            } else {
                Decoded::Malformed
            },
            Decoded::Malformed => Decoded::Malformed,
            Decoded::Unnamed(b) => Decoded::Unnamed(b),
        }
    }
}

/// The bytes of a value.
pub open spec fn encode_value(v: LuaModel) -> Seq<u8>
    decreases v, 0nat,
{
    match v {
        LuaModel::Text(s) => seq![TAG_TEXT] + encode_text(s),
        LuaModel::Number(n) => seq![TAG_NUMBER] + le_bytes(n as nat, 8),
        LuaModel::Boolean(b) => seq![TAG_BOOLEAN, if b { 1u8 } else { 0u8 }],
        LuaModel::Table(es) => seq![TAG_TABLE, 0u8, 0u8, 0u8, 0u8] + le_bytes(es.len(), 4)
            + encode_entries(es, 0),
    }
}

/// The bytes of the entries from index `i` on: each key as a text, then its
/// value.
pub open spec fn encode_entries(es: Entries, i: int) -> Seq<u8>
    decreases es, es.len() - i,
{
    if 0 <= i < es.len() {
        seq![TAG_TEXT] + encode_text(es[i].0) + encode_value(es[i].1) + encode_entries(es, i + 1)
    } else {
        Seq::empty()
    }
}

/// Every text and every table of the value is short enough for the length that
/// precedes it.
pub open spec fn encodable(v: LuaModel) -> bool
    decreases v, 0nat,
{
    match v {
        LuaModel::Text(s) => encode_utf8(s).len() <= MAX_LENGTH,
        LuaModel::Table(es) => es.len() <= MAX_LENGTH && entries_encodable(es, 0),
        _ => true,
    }
}

/// The entries from index `i` on are short enough.
pub open spec fn entries_encodable(es: Entries, i: int) -> bool
    decreases es, es.len() - i,
{
    if 0 <= i < es.len() {
        encode_utf8(es[i].0).len() <= MAX_LENGTH && encodable(es[i].1) && entries_encodable(
            es,
            i + 1,
        )
    } else {
        true
    }
}

/// The entries of a value put into `acc`, where the value is a table.
pub open spec fn merge(acc: Entries, v: LuaModel) -> Entries {
    match v {
        LuaModel::Table(es) => put_all(acc, es, 0),
        _ => acc,
    }
}

/// The entries of `es` from index `i` on, put one after the other into `acc`.
pub open spec fn put_all(acc: Entries, es: Entries, i: int) -> Entries
    decreases es.len() - i,
{
    if 0 <= i < es.len() {
        put_all(put(acc, es[i].0, es[i].1), es, i + 1)
    } else {
        acc
    }
}

/// The bytes of the tables of `frames` from index `i` on, one after the other.
pub open spec fn concat_frames(frames: Seq<Entries>, i: int) -> Seq<u8>
    decreases frames.len() - i,
{
    if 0 <= i < frames.len() {
        encode_value(LuaModel::Table(frames[i])) + concat_frames(frames, i + 1)
    } else {
        Seq::empty()
    }
}

/// The entries of the tables of `frames` from index `i` on, put into `acc`
/// table after table.
pub open spec fn merge_frames(acc: Entries, frames: Seq<Entries>, i: int) -> Entries
    decreases frames.len() - i,
{
    if 0 <= i < frames.len() {
        merge_frames(put_all(acc, frames[i], 0), frames, i + 1)
    } else {
        acc
    }
}

/// The database that a stream holds. Values are read one after the other from
/// `pos` on and the entries of each table are put into `acc`. Where no value
/// stands, the next offset is tried. At the end an error counts only if no value
/// was read.
pub open spec fn scan(
    bytes: Seq<u8>,
    pos: int,
    acc: Entries,
    any: bool,
    failed: bool,
    names: Names,
) -> Result<Entries, CodecError>
    decreases bytes.len() - pos,
{
    if pos < 0 || pos >= bytes.len() {
        if failed && !any {
            Err(CodecError::Unparseable)
        } else {
            Ok(acc)
        }
    } else {
        match spec_read_value(bytes, pos, names) {
            Decoded::Value(v, next) => if pos < next <= bytes.len() {
                scan(bytes, next, merge(acc, v), true, failed, names)
            } else {
                Err(CodecError::Malformed)
            },
            Decoded::Malformed => scan(bytes, pos + 1, acc, any, true, names),
            Decoded::Unnamed(b) => Err(CodecError::UnnamedNumber(b)),
        }
    }
}

/// The database that a whole stream holds.
pub open spec fn spec_parse(bytes: Seq<u8>, names: Names) -> Result<Entries, CodecError> {
    scan(bytes, 0, Seq::empty(), false, false, names)
}

/// A value that was read ends after the offset at which it starts, and within
/// the stream.
pub proof fn lemma_read_advances(bytes: Seq<u8>, pos: int, names: Names)
    ensures
        spec_read_value(bytes, pos, names) matches Decoded::Value(_, next) ==> pos < next
            <= bytes.len(),
    decreases bytes.len() - pos, 0nat,
{
    if 0 <= pos < bytes.len() {
        if bytes[pos] == TAG_TEXT {
            lemma_varint_bounds(bytes, pos + 1, 5);
        } else if bytes[pos] == TAG_TABLE {
            if pos + 9 <= bytes.len() && count_at(bytes, pos + 5) >= 0 {
                lemma_entries_advance(
                    bytes,
                    pos + 9,
                    count_at(bytes, pos + 5) as nat,
                    Seq::empty(),
                    names,
                );
            }
        }
    }
}

/// Entries that were read end at or after the offset at which they start, and
/// within the stream.
pub(crate) proof fn lemma_entries_advance(bytes: Seq<u8>, pos: int, left: nat, acc: Entries, names: Names)
    requires
        pos <= bytes.len(),
    ensures
        spec_read_entries(bytes, pos, left, acc, names) matches Decoded::Value(_, next) ==> pos
            <= next <= bytes.len(),
    decreases bytes.len() - pos, left + 1,
{
    if left > 0 {
        lemma_read_advances(bytes, pos, names);
        match spec_read_value(bytes, pos, names) {
            Decoded::Value(k, p1) => {
                lemma_read_advances(bytes, p1, names);
                match key_text(k, names) {
                    Ok(key) => match spec_read_value(bytes, p1, names) {
                        Decoded::Value(v, p2) => {
                            lemma_entries_advance(
                                bytes,
                                p2,
                                (left - 1) as nat,
                                put(acc, key, v),
                                names,
                            );
                        },
                        _ => {},
                    },
                    Err(_) => {},
                }
            },
            _ => {},
        }
    }
}

/// A length that was read is below 128 to the number of its bytes, and ends
/// within the stream.
pub(crate) proof fn lemma_varint_bounds(bytes: Seq<u8>, pos: int, groups: nat)
    ensures
        read_varint(bytes, pos, groups) matches Some((v, next)) ==> v < pow128(groups) && pos
            < next <= bytes.len() && next <= pos + groups,
    decreases groups,
{
    lemma_pow128_positive(groups);
    if groups > 0 {
        lemma_pow128_positive((groups - 1) as nat);
        if 0 <= pos < bytes.len() && bytes[pos] >= 128 {
            lemma_varint_bounds(bytes, pos + 1, (groups - 1) as nat);
        }
    }
}

/// A power of 128 is at least 1.
pub(crate) proof fn lemma_pow128_positive(g: nat)
    ensures
        pow128(g) >= 1,
    decreases g,
{
    if g > 0 {
        lemma_pow128_positive((g - 1) as nat);
    }
}

// ---------------------------------------------------------------------------
// Reading
// ---------------------------------------------------------------------------

/// How the result of reading a value stands to what the layout says.
pub open spec fn value_read(r: Result<(LuaValue, usize), CodecError>, d: Decoded<LuaModel>) -> bool {
    match d {
        Decoded::Value(v, next) => r matches Ok((x, n)) && x@ == v && n == next,
        Decoded::Malformed => r == Err::<(LuaValue, usize), CodecError>(CodecError::Malformed),
        Decoded::Unnamed(b) => r == Err::<(LuaValue, usize), CodecError>(
            CodecError::UnnamedNumber(b),
        ),
    }
}

/// The text given for the number with these bits.
pub fn find_name(names: &Vec<(u64, String)>, bits: u64) -> (r: Option<String>)
    ensures
        match name_of(names_view(names@), bits) {
            Some(t) => r matches Some(s) && s@ == t,
            None => r is None,
        },
{
    let ghost nv = names_view(names@);
    let mut i: usize = 0;
    assert(nv.skip(0) =~= nv);
    while i < names.len()
        invariant
            i <= names.len(),
            nv == names_view(names@),
            name_of(nv, bits) == name_of(nv.skip(i as int), bits),
        decreases names.len() - i,
    {
        assert(nv.skip(i as int).drop_first() == nv.skip(i + 1));
        if names[i].0 == bits {
            return Some(copy_text(names[i].1.as_str()));
        }
        i += 1;
    }
    None
}

/// The text under which `k` stands as a key, or the bits of the number for
/// which no text was given.
pub fn key_string(k: LuaValue, names: &Vec<(u64, String)>) -> (r: Result<String, u64>)
    ensures
        match key_text(k@, names_view(names@)) {
            Ok(t) => r matches Ok(s) && s@ == t,
            Err(b) => r == Err::<String, u64>(b),
        },
{
    match k {
        LuaValue::String(s) => Ok(s),
        LuaValue::Number(n) => match find_name(names, n) {
            Some(t) => Ok(t),
            None => Err(n),
        },
        LuaValue::Boolean(b) => Ok(copy_text(bool_word(b))),
        LuaValue::Table(_) => Ok(copy_text("unknown")),
    }
}

/// Reads a length of at most `groups` bytes at `pos`.
fn read_groups(data: &[u8], pos: usize, groups: u8) -> (r: Option<(u64, usize)>)
    requires
        groups <= 5,
    ensures
        match read_varint(data@, pos as int, groups as nat) {
            Some((v, next)) => r == Some((v as u64, next as usize)) && v < pow128(groups as nat)
                && pos < next <= data.len(),
            None => r is None,
        },
    decreases groups,
{
    proof {
        lemma_varint_bounds(data@, pos as int, groups as nat);
        reveal_with_fuel(pow128, 6);
    }
    if groups == 0 || pos >= data.len() {
        return None;
    }
    let b = data[pos];
    if b < 128 {
        Some((b as u64, pos + 1))
    } else {
        match read_groups(data, pos + 1, groups - 1) {
            Some((v, next)) => {
                assert(v < pow128(4));
                Some(((b - 128) as u64 + 128 * v, next))
            },
            None => None,
        }
    }
}

/// Reads a length of at most five bytes at `pos`.
pub fn read_7bit_encoded_int(data: &[u8], pos: usize) -> (r: Option<(u64, usize)>)
    ensures
        match read_varint(data@, pos as int, 5) {
            Some((v, next)) => r == Some((v as u64, next as usize)) && v < pow128(5) && pos < next
                <= data.len(),
            None => r is None,
        },
{
    read_groups(data, pos, 5)
}

/// Reads a text at `pos`: its length, then its bytes.
pub fn read_string(data: &[u8], pos: usize) -> (r: Result<(String, usize), CodecError>)
    ensures
        match read_text(data@, pos as int) {
            Some((s, next)) => r matches Ok((t, n)) && t@ == s && n == next && pos < next
                <= data.len(),
            None => r == Err::<(String, usize), CodecError>(CodecError::Malformed),
        },
{
    match read_7bit_encoded_int(data, pos) {
        None => Err(CodecError::Malformed),
        Some((n, p)) => {
            proof {
                reveal_with_fuel(pow128, 6);
            }
            if n > MAX_LENGTH as u64 {
                return Err(CodecError::Malformed);
            }
            let n = n as usize;
            if data.len() - p < n {
                return Err(CodecError::Malformed);
            }
            let raw = slice_to_vec(slice_subrange(data, p, p + n));
            match string_from_utf8(raw) {
                Some(s) => Ok((s, p + n)),
                None => Err(CodecError::Malformed),
            }
        },
    }
}

/// Reads the value at `pos`. `names` gives the texts of the numbers that stand
/// as keys.
pub fn read_value(data: &[u8], pos: usize, names: &Vec<(u64, String)>) -> (r: Result<
    (LuaValue, usize),
    CodecError,
>)
    ensures
        value_read(r, spec_read_value(data@, pos as int, names_view(names@))),
        r matches Ok((_, n)) ==> pos < n <= data.len(),
    decreases data.len() - pos, 1nat,
{
    if pos >= data.len() {
        return Err(CodecError::Malformed);
    }
    let tag = data[pos];
    if tag == TAG_TEXT {
        match read_string(data, pos + 1) {
            Ok((s, next)) => Ok((LuaValue::String(s), next)),
            Err(e) => Err(e),
        }
    } else if tag == TAG_NUMBER {
        if data.len() - pos < 9 {
            return Err(CodecError::Malformed);
        }
        let field = slice_subrange(data, pos + 1, pos + 9);
        assert(field@.subrange(0, 8) == field@);
        let bits = le_read_u64(field);
        Ok((LuaValue::Number(bits), pos + 9))
    } else if tag == TAG_BOOLEAN {
        if data.len() - pos < 2 {
            return Err(CodecError::Malformed);
        }
        Ok((LuaValue::Boolean(data[pos + 1] != 0), pos + 2))
    } else if tag == TAG_TABLE {
        read_table(data, pos, names)
    } else {
        Err(CodecError::Malformed)
    }
}

/// Reads the table whose tag stands at `pos`: four bytes that are skipped, the
/// count, then the pairs.
fn read_table(data: &[u8], pos: usize, names: &Vec<(u64, String)>) -> (r: Result<
    (LuaValue, usize),
    CodecError,
>)
    requires
        pos < data.len(),
        data@[pos as int] == TAG_TABLE,
    ensures
        value_read(r, spec_read_value(data@, pos as int, names_view(names@))),
        r matches Ok((_, n)) ==> pos < n <= data.len(),
    decreases data.len() - pos, 0nat,
{
    if data.len() - pos < 9 {
        return Err(CodecError::Malformed);
    }
    let field = slice_subrange(data, pos + 5, pos + 9);
    assert(field@.subrange(0, 4) == field@);
    let count = le_read_i32(field);
    if count < 0 {
        return Err(CodecError::Malformed);
    }
    let ghost nv = names_view(names@);
    let ghost whole = spec_read_entries(data@, pos + 9, count as nat, Seq::empty(), nv);
    let mut entries: Vec<(String, LuaValue)> = Vec::new();
    let mut p: usize = pos + 9;
    let mut i: i32 = 0;
    assert(table_view(entries@) =~= Seq::empty());
    while i < count
        invariant
            pos + 9 <= p <= data.len(),
            0 <= i <= count,
            spec_read_value(data@, pos as int, nv) == table_of(whole),
            nv == names_view(names@),
            whole == spec_read_entries(
                data@,
                p as int,
                (count - i) as nat,
                table_view(entries@),
                nv,
            ),
        decreases count - i,
    {
        let (k, p1) = match read_value(data, p, names) {
            Ok(x) => x,
            Err(e) => {
                return Err(e);
            },
        };
        let key = match key_string(k, names) {
            Ok(s) => s,
            Err(bits) => {
                return Err(CodecError::UnnamedNumber(bits));
            },
        };
        let (v, p2) = match read_value(data, p1, names) {
            Ok(x) => x,
            Err(e) => {
                return Err(e);
            },
        };
        table_insert(&mut entries, key, v);
        p = p2;
        i = i + 1;
    }
    Ok((LuaValue::Table(entries), p))
}

/// Puts the entries of `v` into `all`, where `v` is a table.
pub fn merge_into(all: &mut Vec<(String, LuaValue)>, v: LuaValue)
    ensures
        table_view(final(all)@) == merge(table_view(old(all)@), v@),
{
    match v {
        LuaValue::Table(es) => {
            let ghost ev = table_view(es@);
            let ghost start = table_view(all@);
            for entry in it: es
                invariant
                    it.seq() == es@,
                    ev == table_view(es@),
                    put_all(start, ev, 0) == put_all(table_view(all@), ev, it.index() as int),
            {
                let (k, x) = entry;
                table_insert(all, k, x);
            }
        },
        _ => {},
    }
}

/// Reads a database: the values of the stream one after the other, the entries
/// of every table put into one. Where no value stands, the next byte is tried.
/// The stream is refused as unparseable if it holds errors and not one value.
/// `names` gives the texts of the numbers that stand as keys; where one is
/// missing, its bits come back in the error.
pub fn parse_lua_data(data: &Vec<u8>, names: &Vec<(u64, String)>) -> (r: Result<
    Vec<(String, LuaValue)>,
    CodecError,
>)
    ensures
        match spec_parse(data@, names_view(names@)) {
            Ok(es) => r matches Ok(t) && table_view(t@) == es,
            Err(e) => r == Err::<Vec<(String, LuaValue)>, CodecError>(e),
        },
        r matches Ok(t) ==> crate::value::entries_wf(table_view(t@)),
{
    let bytes = data.as_slice();
    let ghost nv = names_view(names@);
    proof {
        crate::codec_proofs::lemma_scan_wf(data@, 0, Seq::empty(), false, false, nv);
    }
    let mut all: Vec<(String, LuaValue)> = Vec::new();
    let mut pos: usize = 0;
    let mut any = false;
    let mut failed = false;
    assert(table_view(all@) =~= Seq::empty());
    while pos < bytes.len()
        invariant
            pos <= bytes.len(),
            bytes@ == data@,
            nv == names_view(names@),
            spec_parse(data@, nv) == scan(bytes@, pos as int, table_view(all@), any, failed, nv),
        decreases bytes.len() - pos,
    {
        match read_value(bytes, pos, names) {
            Ok((v, next)) => {
                merge_into(&mut all, v);
                any = true;
                pos = next;
            },
            Err(CodecError::Malformed) => {
                failed = true;
                pos = pos + 1;
            },
            Err(e) => {
                return Err(e);
            },
        }
    }
    if failed && !any {
        Err(CodecError::Unparseable)
    } else {
        Ok(all)
    }
}

// ---------------------------------------------------------------------------
// Writing
// ---------------------------------------------------------------------------

/// Appends a length in chunks of seven bits.
pub fn write_7bit_encoded_int(out: &mut Vec<u8>, value: u32)
    ensures
        final(out)@ == old(out)@ + write_varint(value as nat),
    decreases value,
{
    if value < 128 {
        out.push(value as u8);
        assert(out@ == old(out)@ + write_varint(value as nat));
    } else {
        out.push((value % 128 + 128) as u8);
        let ghost mid = out@;
        write_7bit_encoded_int(out, value / 128);
        assert(out@ == old(out)@ + write_varint(value as nat));
    }
}

/// Appends a text: its length in bytes, then its bytes.
pub fn write_string(out: &mut Vec<u8>, value: &str) -> (r: Result<(), CodecError>)
    ensures
        match r {
            Ok(_) => encode_utf8(value@).len() <= MAX_LENGTH && final(out)@ == old(out)@
                + encode_text(value@),
            Err(e) => e == CodecError::Oversized && encode_utf8(value@).len() > MAX_LENGTH,
        },
{
    let bytes = value.as_bytes();
    if bytes.len() > MAX_LENGTH {
        return Err(CodecError::Oversized);
    }
    write_7bit_encoded_int(out, bytes.len() as u32);
    out.extend_from_slice(bytes);
    assert(out@ == old(out)@ + encode_text(value@));
    Ok(())
}

/// Appends a value.
pub fn write_value(out: &mut Vec<u8>, value: &LuaValue) -> (r: Result<(), CodecError>)
    ensures
        match r {
            Ok(_) => encodable(value@) && final(out)@ == old(out)@ + encode_value(value@),
            Err(e) => e == CodecError::Oversized && !encodable(value@),
        },
    decreases value, 0nat,
{
    match value {
        LuaValue::String(s) => {
            out.push(TAG_TEXT);
            let r = write_string(out, s.as_str());
            assert(r is Ok ==> out@ == old(out)@ + encode_value(value@));
            r
        },
        LuaValue::Number(n) => {
            out.push(TAG_NUMBER);
            let mut field = le_bytes_u64(*n);
            out.append(&mut field);
            assert(out@ == old(out)@ + encode_value(value@));
            Ok(())
        },
        LuaValue::Boolean(b) => {
            out.push(TAG_BOOLEAN);
            out.push(if *b { 1 } else { 0 });
            assert(out@ == old(out)@ + encode_value(value@));
            Ok(())
        },
        LuaValue::Table(t) => {
            out.push(TAG_TABLE);
            let r = write_table(out, t);
            assert(r is Ok ==> out@ == old(out)@ + encode_value(value@));
            r
        },
    }
}

/// Appends a table after its tag: four zero bytes, the count, then each key as
/// a text with its value.
pub fn write_table(out: &mut Vec<u8>, data: &Vec<(String, LuaValue)>) -> (r: Result<
    (),
    CodecError,
>)
    ensures
        match r {
            Ok(_) => encodable(LuaModel::Table(table_view(data@))) && final(out)@ == old(out)@
                + seq![0u8, 0u8, 0u8, 0u8] + le_bytes(data@.len(), 4) + encode_entries(
                table_view(data@),
                0,
            ),
            Err(e) => e == CodecError::Oversized && !encodable(LuaModel::Table(table_view(data@))),
        },
    decreases data, 1nat,
{
    if data.len() > MAX_LENGTH {
        return Err(CodecError::Oversized);
    }
    out.push(0);
    out.push(0);
    out.push(0);
    out.push(0);
    let mut field = le_bytes_i32(data.len() as i32);
    out.append(&mut field);
    let ghost tv = table_view(data@);
    let ghost base = out@;
    assert(base == old(out)@ + seq![0u8, 0u8, 0u8, 0u8] + le_bytes(data@.len(), 4));
    let mut i: usize = 0;
    while i < data.len()
        invariant
            i <= data.len(),
            tv == table_view(data@),
            base + encode_entries(tv, 0) == out@ + encode_entries(tv, i as int),
            entries_encodable(tv, 0) == entries_encodable(tv, i as int),
        decreases data.len() - i,
    {
        let entry = &data[i];
        let ghost before = out@;
        out.push(TAG_TEXT);
        match write_string(out, entry.0.as_str()) {
            Ok(_) => {},
            Err(e) => {
                return Err(e);
            },
        }
        match write_value(out, &entry.1) {
            Ok(_) => {},
            Err(e) => {
                return Err(e);
            },
        }
        assert(out@ + encode_entries(tv, i + 1) == before + encode_entries(tv, i as int));
        i += 1;
    }
    assert(out@ == base + encode_entries(tv, 0));
    Ok(())
}

/// The bytes of a database: one table that holds every entry. Where no table
/// holds a key twice, reading the bytes gives the database back.
pub fn serialize_lua_database(data: &Vec<(String, LuaValue)>) -> (r: Result<Vec<u8>, CodecError>)
    ensures
        match r {
            Ok(bytes) => encodable(LuaModel::Table(table_view(data@))) && bytes@ == encode_value(
                LuaModel::Table(table_view(data@)),
            ),
            Err(e) => e == CodecError::Oversized && !encodable(LuaModel::Table(table_view(data@))),
        },
        r matches Ok(bytes) ==> (crate::value::entries_wf(table_view(data@)) ==> forall|
            names: Names,
        |
            #[trigger] spec_parse(bytes@, names) == Ok::<Entries, CodecError>(table_view(data@))),
{
    let mut buffer: Vec<u8> = Vec::new();
    buffer.push(TAG_TABLE);
    match write_table(&mut buffer, data) {
        Ok(_) => {
            assert(buffer@ == encode_value(LuaModel::Table(table_view(data@))));
            proof {
                let tv = table_view(data@);
                if crate::value::entries_wf(tv) {
                    assert forall|names: Names| #[trigger]
                        spec_parse(buffer@, names) == Ok::<Entries, CodecError>(tv) by {
                        crate::codec_proofs::lemma_parse_serialized(tv, names);
                    }
                }
            }
            Ok(buffer)
        },
        Err(e) => Err(e),
    }
}

} // verus!
