//! What reading makes of what writing wrote: a value comes back as it was, and
//! a stream of tables comes back as their entries, later ones over earlier
//! ones, whatever follows them.

use vstd::prelude::*;
use vstd::utf8::*;
use crate::codec::{
    le_bytes, le_number, signed32, concat_frames, count_at, encodable, encode_entries, encode_text,
    encode_value, entries_encodable, lemma_pow128_positive, lemma_read_advances, merge,
    merge_frames, pow128, put_all, read_text, read_varint, scan, spec_parse, spec_read_entries,
    spec_read_value, write_varint, CodecError, Decoded, Names, MAX_LENGTH, TAG_NUMBER, TAG_TABLE,
    TAG_TEXT,
};
use crate::value::{
    entries_wf, key_index, keys_unique, lemma_key_index, lemma_put, lookup, put, Entries, LuaModel,
};

verus! {

/// `w` stands in `bytes` at `pos`.
pub open spec fn holds(bytes: Seq<u8>, pos: int, w: Seq<u8>) -> bool {
    0 <= pos && pos + w.len() <= bytes.len() && bytes.subrange(pos, pos + w.len()) == w
}

/// Where two pieces stand one after the other, each stands in its place.
pub(crate) proof fn lemma_holds_split(bytes: Seq<u8>, pos: int, a: Seq<u8>, b: Seq<u8>)
    requires
        holds(bytes, pos, a + b),
    ensures
        holds(bytes, pos, a),
        holds(bytes, pos + a.len(), b),
{
    let w = a + b;
    assert(bytes.subrange(pos, pos + a.len()) =~= w.subrange(0, a.len() as int));
    assert(w.subrange(0, a.len() as int) =~= a);
    assert(bytes.subrange(pos + a.len(), pos + a.len() + b.len()) =~= w.subrange(
        a.len() as int,
        w.len() as int,
    ));
    assert(w.subrange(a.len() as int, w.len() as int) =~= b);
}

/// 256 to the power `count`.
pub open spec fn pow256(count: nat) -> nat
    decreases count,
{
    if count == 0 {
        1
    } else {
        256 * pow256((count - 1) as nat)
    }
}

/// The bytes of a number that fits them denote the number.
pub(crate) proof fn lemma_le_round_trip(n: nat, count: nat)
    requires
        n < pow256(count),
    ensures
        le_bytes(n, count).len() == count,
        le_number(le_bytes(n, count)) == n,
    decreases count,
{
    if count > 0 {
        lemma_le_round_trip(n / 256, (count - 1) as nat);
        assert(le_bytes(n, count).drop_first() =~= le_bytes(n / 256, (count - 1) as nat));
    }
}

/// A length that was written is read back, where enough bytes may be read.
pub(crate) proof fn lemma_varint_roundtrip(n: nat, bytes: Seq<u8>, pos: int, groups: nat)
    requires
        holds(bytes, pos, write_varint(n)),
        groups >= 1,
        n < pow128(groups),
    ensures
        read_varint(bytes, pos, groups) == Some((n, pos + write_varint(n).len())),
    decreases n,
{
    let w = write_varint(n);
    assert(bytes[pos] == bytes.subrange(pos, pos + w.len())[0]);
    if n >= 128 {
        let first = seq![(n % 128 + 128) as u8];
        lemma_holds_split(bytes, pos, first, write_varint(n / 128));
        lemma_pow128_positive((groups - 1) as nat);
        lemma_varint_roundtrip(n / 128, bytes, pos + 1, (groups - 1) as nat);
    }
}

/// A text that was written is read back.
pub(crate) proof fn lemma_text_roundtrip(s: Seq<char>, bytes: Seq<u8>, pos: int)
    requires
        holds(bytes, pos, encode_text(s)),
        encode_utf8(s).len() <= MAX_LENGTH,
    ensures
        read_text(bytes, pos) == Some((s, pos + encode_text(s).len())),
{
    let raw = encode_utf8(s);
    lemma_holds_split(bytes, pos, write_varint(raw.len()), raw);
    assert(raw.len() < pow128(5)) by {
        reveal_with_fuel(pow128, 6);
    }
    lemma_varint_roundtrip(raw.len(), bytes, pos, 5);
    encode_utf8_valid_utf8(s);
    encode_utf8_decode_utf8(s);
}

/// A key that was written is read back as a text.
pub(crate) proof fn lemma_key_roundtrip(s: Seq<char>, bytes: Seq<u8>, pos: int, names: Names)
    requires
        holds(bytes, pos, seq![TAG_TEXT] + encode_text(s)),
        encode_utf8(s).len() <= MAX_LENGTH,
    ensures
        spec_read_value(bytes, pos, names) == Decoded::Value(
            LuaModel::Text(s),
            pos + 1 + encode_text(s).len(),
        ),
{
    let w = seq![TAG_TEXT] + encode_text(s);
    assert(bytes[pos] == bytes.subrange(pos, pos + w.len())[0]);
    lemma_holds_split(bytes, pos, seq![TAG_TEXT], encode_text(s));
    lemma_text_roundtrip(s, bytes, pos + 1);
}

/// A value that was written is read back: the same value, and the offset after
/// its bytes.
pub(crate) proof fn lemma_value_roundtrip(v: LuaModel, bytes: Seq<u8>, pos: int, names: Names)
    requires
        holds(bytes, pos, encode_value(v)),
        v.wf(),
        encodable(v),
    ensures
        spec_read_value(bytes, pos, names) == Decoded::Value(v, pos + encode_value(v).len()),
    decreases v, 0nat,
{
    let w = encode_value(v);
    assert(bytes[pos] == bytes.subrange(pos, pos + w.len())[0]);
    match v {
        LuaModel::Text(s) => {
            lemma_key_roundtrip(s, bytes, pos, names);
        },
        LuaModel::Number(n) => {
            lemma_holds_split(bytes, pos, seq![TAG_NUMBER], le_bytes(n as nat, 8));
            assert(n < pow256(8)) by {
                reveal_with_fuel(pow256, 9);
            }
            lemma_le_round_trip(n as nat, 8);
        },
        LuaModel::Boolean(b) => {
            assert(bytes[pos + 1] == bytes.subrange(pos, pos + w.len())[1]);
        },
        LuaModel::Table(es) => {
            let head = seq![TAG_TABLE, 0u8, 0u8, 0u8, 0u8];
            let count = le_bytes(es.len(), 4);
            assert(es.len() < pow256(4)) by {
                reveal_with_fuel(pow256, 5);
            }
            lemma_le_round_trip(es.len(), 4);
            lemma_holds_split(bytes, pos, head + count, encode_entries(es, 0));
            lemma_holds_split(bytes, pos, head, count);
            assert(count_at(bytes, pos + 5) == es.len());
            assert(es.take(0) =~= Seq::<(Seq<char>, LuaModel)>::empty());
            lemma_entries_roundtrip(es, 0, bytes, pos + 9, names);
        },
    }
}

/// Entries that were written are read back, given that the entries before them
/// were.
pub(crate) proof fn lemma_entries_roundtrip(es: Entries, i: int, bytes: Seq<u8>, pos: int, names: Names)
    requires
        0 <= i <= es.len(),
        holds(bytes, pos, encode_entries(es, i)),
        entries_wf(es),
        entries_encodable(es, i),
    ensures
        spec_read_entries(bytes, pos, (es.len() - i) as nat, es.take(i), names) == Decoded::Value(
            es,
            pos + encode_entries(es, i).len(),
        ),
    decreases es, es.len() - i,
{
    if i < es.len() {
        let k = es[i].0;
        let v = es[i].1;
        let key_bytes = seq![TAG_TEXT] + encode_text(k);
        let rest = encode_entries(es, i + 1);
        assert(encode_entries(es, i) == key_bytes + encode_value(v) + rest);
        lemma_holds_split(bytes, pos, key_bytes + encode_value(v), rest);
        lemma_holds_split(bytes, pos, key_bytes, encode_value(v));
        lemma_key_roundtrip(k, bytes, pos, names);
        let p1 = pos + key_bytes.len();
        lemma_value_roundtrip(v, bytes, p1, names);
        let p2 = p1 + encode_value(v).len();
        lemma_read_advances(bytes, pos, names);
        lemma_read_advances(bytes, p1, names);
        lemma_key_index(es.take(i), k);
        assert(key_index(es.take(i), k) is None) by {
            if let Some(j) = key_index(es.take(i), k) {
                assert(es.take(i)[j] == es[j]);
            }
        }
        assert(put(es.take(i), k, v) =~= es.take(i + 1));
        lemma_entries_roundtrip(es, i + 1, bytes, p2, names);
    } else {
        assert(es.take(i) =~= es);
    }
}

/// Reading what was written gives the value back: for every value in which no
/// table holds a key twice and nothing is too long for its length prefix.
pub proof fn lemma_decode_encode(v: LuaModel, names: Names)
    requires
        v.wf(),
        encodable(v),
    ensures
        spec_read_value(encode_value(v), 0, names) == Decoded::Value(
            v,
            encode_value(v).len() as int,
        ),
{
    let w = encode_value(v);
    assert(w.subrange(0, w.len() as int) =~= w);
    lemma_value_roundtrip(v, w, 0, names);
}

/// Entries without a repeated key, put into nothing, are the entries.
pub(crate) proof fn lemma_put_all_fresh(es: Entries, i: int)
    requires
        0 <= i <= es.len(),
        keys_unique(es),
    ensures
        put_all(es.take(i), es, i) == es,
    decreases es.len() - i,
{
    if i < es.len() {
        lemma_key_index(es.take(i), es[i].0);
        assert(key_index(es.take(i), es[i].0) is None) by {
            if let Some(j) = key_index(es.take(i), es[i].0) {
                assert(es.take(i)[j] == es[j]);
            }
        }
        assert(put(es.take(i), es[i].0, es[i].1) =~= es.take(i + 1));
        lemma_put_all_fresh(es, i + 1);
    } else {
        assert(es.take(i) =~= es);
    }
}

/// After the entries of `es` are put into `acc`, a key of `es` holds what it
/// holds last in `es`, and any other key holds what it held in `acc`.
pub proof fn lemma_put_all_lookup(acc: Entries, es: Entries, i: int, key: Seq<char>)
    requires
        0 <= i <= es.len(),
    ensures
        lookup(put_all(acc, es, i), key) == (match last_value(es, i, key) {
            Some(v) => Some(v),
            None => lookup(acc, key),
        }),
        keys_unique(acc) ==> keys_unique(put_all(acc, es, i)),
    decreases es.len() - i,
{
    if i < es.len() {
        lemma_put(acc, es[i].0, es[i].1, key);
        lemma_put_all_lookup(put(acc, es[i].0, es[i].1), es, i + 1, key);
    }
}

/// The value of the last entry of `es`, from index `i` on, whose key is `key`.
pub open spec fn last_value(es: Entries, i: int, key: Seq<char>) -> Option<LuaModel>
    decreases es.len() - i,
{
    if 0 <= i < es.len() {
        match last_value(es, i + 1, key) {
            Some(v) => Some(v),
            None => if es[i].0 == key {
                Some(es[i].1)
            } else {
                None
            },
        }
    } else {
        None
    }
}

/// Every table of `frames` from index `i` on has no repeated key and can be
/// written.
pub open spec fn frames_valid(frames: Seq<Entries>, i: int) -> bool {
    forall|j: int|
        i <= j < frames.len() ==> entries_wf(#[trigger] frames[j]) && encodable(
            LuaModel::Table(frames[j]),
        )
}

/// Where written tables stand one after the other in a stream, reading the
/// stream from their start is reading it from their end with their entries put
/// in, one table after the other.
pub(crate) proof fn lemma_scan_frames(
    bytes: Seq<u8>,
    pos: int,
    frames: Seq<Entries>,
    i: int,
    acc: Entries,
    any: bool,
    failed: bool,
    names: Names,
)
    requires
        0 <= i <= frames.len(),
        holds(bytes, pos, concat_frames(frames, i)),
        frames_valid(frames, i),
    ensures
        scan(bytes, pos, acc, any, failed, names) == scan(
            bytes,
            pos + concat_frames(frames, i).len(),
            merge_frames(acc, frames, i),
            any || i < frames.len(),
            failed,
            names,
        ),
    decreases frames.len() - i,
{
    if i < frames.len() {
        let v = LuaModel::Table(frames[i]);
        let rest = concat_frames(frames, i + 1);
        lemma_holds_split(bytes, pos, encode_value(v), rest);
        lemma_value_roundtrip(v, bytes, pos, names);
        let next = pos + encode_value(v).len();
        lemma_scan_frames(bytes, next, frames, i + 1, merge(acc, v), true, failed, names);
    }
}

/// A stream made of written tables, one after the other, holds the entries of
/// all of them: each table's entries put in after those of the tables before
/// it, so that of two values under one key the later one stays.
pub proof fn lemma_parse_concatenation(frames: Seq<Entries>, names: Names)
    requires
        frames_valid(frames, 0),
    ensures
        spec_parse(concat_frames(frames, 0), names) == Ok::<Entries, CodecError>(
            merge_frames(Seq::empty(), frames, 0),
        ),
{
    let bytes = concat_frames(frames, 0);
    assert(bytes.subrange(0, bytes.len() as int) =~= bytes);
    lemma_scan_frames(bytes, 0, frames, 0, Seq::empty(), false, false, names);
}

/// A written database is read back as it was.
pub proof fn lemma_parse_serialized(es: Entries, names: Names)
    requires
        entries_wf(es),
        encodable(LuaModel::Table(es)),
    ensures
        spec_parse(encode_value(LuaModel::Table(es)), names) == Ok::<Entries, CodecError>(es),
{
    let frames = seq![es];
    assert(frames_valid(frames, 0));
    lemma_parse_concatenation(frames, names);
    reveal_with_fuel(concat_frames, 3);
    reveal_with_fuel(merge_frames, 3);
    assert(concat_frames(frames, 0) =~= encode_value(LuaModel::Table(es)));
    assert(es.take(0) =~= Seq::<(Seq<char>, LuaModel)>::empty());
    lemma_put_all_fresh(es, 0);
}

/// From `pos` on no value stands at any offset of the stream.
pub open spec fn unreadable_from(bytes: Seq<u8>, pos: int, names: Names) -> bool {
    forall|p: int|
        pos <= p < bytes.len() ==> #[trigger] spec_read_value(bytes, p, names) is Malformed
}

/// Where nothing can be read any more, what was read so far stays.
pub(crate) proof fn lemma_scan_unreadable(
    bytes: Seq<u8>,
    pos: int,
    acc: Entries,
    failed: bool,
    names: Names,
)
    requires
        0 <= pos,
        unreadable_from(bytes, pos, names),
    ensures
        scan(bytes, pos, acc, true, failed, names) == Ok::<Entries, CodecError>(acc),
    decreases bytes.len() - pos,
{
    if pos < bytes.len() {
        assert(spec_read_value(bytes, pos, names) is Malformed);
        lemma_scan_unreadable(bytes, pos + 1, acc, true, names);
    }
}

/// While a stream is read, a key that was read stays.
pub(crate) proof fn lemma_scan_keeps_keys(
    bytes: Seq<u8>,
    pos: int,
    acc: Entries,
    failed: bool,
    names: Names,
    key: Seq<char>,
)
    requires
        0 <= pos,
        lookup(acc, key) is Some,
    ensures
        match scan(bytes, pos, acc, true, failed, names) {
            Ok(es) => lookup(es, key) is Some,
            Err(e) => e is UnnamedNumber,
        },
    decreases bytes.len() - pos,
{
    if pos < bytes.len() {
        lemma_read_advances(bytes, pos, names);
        match spec_read_value(bytes, pos, names) {
            Decoded::Value(v, next) => {
                match v {
                    LuaModel::Table(es) => {
                        lemma_put_all_lookup(acc, es, 0, key);
                    },
                    _ => {},
                }
                lemma_scan_keeps_keys(bytes, next, merge(acc, v), failed, names, key);
            },
            Decoded::Malformed => {
                lemma_scan_keeps_keys(bytes, pos + 1, acc, true, names, key);
            },
            Decoded::Unnamed(_) => {},
        }
    }
}

/// After one or more written tables a stream may go on with bytes that are
/// none: the tables' entries are found all the same. The stream is not refused
/// as unparseable, and every key of the tables is a key of what was read.
pub proof fn lemma_parse_with_tail(
    frames: Seq<Entries>,
    tail: Seq<u8>,
    names: Names,
    key: Seq<char>,
)
    requires
        frames.len() >= 1,
        frames_valid(frames, 0),
        lookup(merge_frames(Seq::empty(), frames, 0), key) is Some,
    ensures
        match spec_parse(concat_frames(frames, 0) + tail, names) {
            Ok(es) => lookup(es, key) is Some,
            Err(e) => e is UnnamedNumber,
        },
{
    let head = concat_frames(frames, 0);
    let bytes = head + tail;
    assert(bytes.subrange(0, head.len() as int) =~= head);
    lemma_scan_frames(bytes, 0, frames, 0, Seq::empty(), false, false, names);
    lemma_scan_keeps_keys(
        bytes,
        head.len() as int,
        merge_frames(Seq::empty(), frames, 0),
        false,
        names,
        key,
    );
}

/// After one or more written tables a stream may end in bytes among which no
/// value stands at any offset: what is read is what the tables alone hold.
pub proof fn lemma_parse_corrupt_tail(frames: Seq<Entries>, tail: Seq<u8>, names: Names)
    requires
        frames.len() >= 1,
        frames_valid(frames, 0),
        unreadable_from(concat_frames(frames, 0) + tail, concat_frames(frames, 0).len() as int, names),
    ensures
        spec_parse(concat_frames(frames, 0) + tail, names) == Ok::<Entries, CodecError>(
            merge_frames(Seq::empty(), frames, 0),
        ),
{
    let head = concat_frames(frames, 0);
    let bytes = head + tail;
    assert(bytes.subrange(0, head.len() as int) =~= head);
    lemma_scan_frames(bytes, 0, frames, 0, Seq::empty(), false, false, names);
    lemma_scan_unreadable(
        bytes,
        head.len() as int,
        merge_frames(Seq::empty(), frames, 0),
        false,
        names,
    );
}

/// Entries that hold each key once still do so after a value was put in.
pub(crate) proof fn lemma_put_wf(es: Entries, key: Seq<char>, value: LuaModel)
    requires
        entries_wf(es),
        value.wf(),
    ensures
        entries_wf(put(es, key, value)),
{
    let after = put(es, key, value);
    lemma_put(es, key, value, key);
    lemma_key_index(es, key);
    assert forall|i: int| 0 <= i < after.len() implies (#[trigger] after[i]).1.wf() by {
        match key_index(es, key) {
            Some(j) => {
                if i != j {
                    assert(after[i] == es[i]);
                }
            },
            None => {
                if i < es.len() {
                    assert(after[i] == es[i]);
                }
            },
        }
    }
}

/// A value that was read holds no key twice in any of its tables.
pub proof fn lemma_read_wf(bytes: Seq<u8>, pos: int, names: Names)
    ensures
        spec_read_value(bytes, pos, names) matches Decoded::Value(v, _) ==> v.wf(),
    decreases bytes.len() - pos, 0nat,
{
    if 0 <= pos < bytes.len() && bytes[pos] == TAG_TABLE && pos + 9 <= bytes.len() && count_at(
        bytes,
        pos + 5,
    ) >= 0 {
        lemma_entries_wf(bytes, pos + 9, count_at(bytes, pos + 5) as nat, Seq::empty(), names);
    }
}

/// Entries that were read hold no key twice, where those read before them did
/// not.
pub(crate) proof fn lemma_entries_wf(bytes: Seq<u8>, pos: int, left: nat, acc: Entries, names: Names)
    requires
        entries_wf(acc),
    ensures
        spec_read_entries(bytes, pos, left, acc, names) matches Decoded::Value(es, _)
            ==> entries_wf(es),
    decreases bytes.len() - pos, left + 1,
{
    if left > 0 {
        match spec_read_value(bytes, pos, names) {
            Decoded::Value(k, p1) => {
                if pos < p1 <= bytes.len() {
                    match crate::codec::key_text(k, names) {
                        Ok(key) => {
                            lemma_read_wf(bytes, p1, names);
                            match spec_read_value(bytes, p1, names) {
                                Decoded::Value(v, p2) => {
                                    if p1 < p2 <= bytes.len() {
                                        lemma_put_wf(acc, key, v);
                                        lemma_entries_wf(
                                            bytes,
                                            p2,
                                            (left - 1) as nat,
                                            put(acc, key, v),
                                            names,
                                        );
                                    }
                                },
                                _ => {},
                            }
                        },
                        Err(_) => {},
                    }
                }
            },
            _ => {},
        }
    }
}

/// Entries that hold each key once still do so after the entries of a table
/// were put in.
pub(crate) proof fn lemma_put_all_wf(acc: Entries, es: Entries, i: int)
    requires
        0 <= i <= es.len(),
        entries_wf(acc),
        entries_wf(es),
    ensures
        entries_wf(put_all(acc, es, i)),
    decreases es.len() - i,
{
    if i < es.len() {
        lemma_put_wf(acc, es[i].0, es[i].1);
        lemma_put_all_wf(put(acc, es[i].0, es[i].1), es, i + 1);
    }
}

/// A database that was read holds no key twice, in itself or in a table below.
pub proof fn lemma_scan_wf(
    bytes: Seq<u8>,
    pos: int,
    acc: Entries,
    any: bool,
    failed: bool,
    names: Names,
)
    requires
        entries_wf(acc),
    ensures
        scan(bytes, pos, acc, any, failed, names) matches Ok(es) ==> entries_wf(es),
    decreases bytes.len() - pos,
{
    if 0 <= pos < bytes.len() {
        lemma_read_wf(bytes, pos, names);
        match spec_read_value(bytes, pos, names) {
            Decoded::Value(v, next) => {
                if pos < next <= bytes.len() {
                    match v {
                        LuaModel::Table(es) => {
                            lemma_put_all_wf(acc, es, 0);
                        },
                        _ => {},
                    }
                    lemma_scan_wf(bytes, next, merge(acc, v), true, failed, names);
                }
            },
            Decoded::Malformed => {
                lemma_scan_wf(bytes, pos + 1, acc, any, true, names);
            },
            Decoded::Unnamed(_) => {},
        }
    }
}

/// The value that the last of the tables from index `i` on holds under `key`.
pub open spec fn last_in_frames(frames: Seq<Entries>, i: int, key: Seq<char>) -> Option<LuaModel>
    decreases frames.len() - i,
{
    if 0 <= i < frames.len() {
        match last_in_frames(frames, i + 1, key) {
            Some(v) => Some(v),
            None => last_value(frames[i], 0, key),
        }
    } else {
        None
    }
}

/// Of the values that tables hold under one key, the one of the last table
/// stays: after the tables were put in one after the other, a key holds what
/// the last table that has it holds under it, and a key that none of them has
/// holds what it held.
pub proof fn lemma_merge_frames_lookup(acc: Entries, frames: Seq<Entries>, i: int, key: Seq<char>)
    requires
        0 <= i <= frames.len(),
    ensures
        lookup(merge_frames(acc, frames, i), key) == (match last_in_frames(frames, i, key) {
            Some(v) => Some(v),
            None => lookup(acc, key),
        }),
    decreases frames.len() - i,
{
    if i < frames.len() {
        lemma_put_all_lookup(acc, frames[i], 0, key);
        lemma_merge_frames_lookup(put_all(acc, frames[i], 0), frames, i + 1, key);
    }
}

} // verus!
