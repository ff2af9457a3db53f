//! Text as sequences of characters: conversion between strings, characters and
//! UTF-8 bytes, comparison, and the decimal notation of integers.

use vstd::prelude::*;
use vstd::utf8::*;

verus! {

/// `String::push` of std appends the character `c` to the string and changes
/// nothing else.
pub assume_specification[ std::string::String::push ](s: &mut std::string::String, c: char)
    ensures
        final(s)@ == old(s)@.push(c),
;

/// `String::from_utf8` of std: it succeeds exactly on well-formed UTF-8, and the
/// string then holds the characters that the bytes encode.
#[verifier::external_body]
pub(crate) fn string_from_utf8(bytes: Vec<u8>) -> (r: Option<String>)
    ensures
        r is Some <==> valid_utf8(bytes@),
        r matches Some(s) ==> s@ == decode_utf8(bytes@),
{
    match String::from_utf8(bytes) {
        Ok(s) => Some(s),
        Err(_) => None,
    }
}

/// The characters of `s`, in a vector that can be indexed.
pub fn chars_of(s: &str) -> (v: Vec<char>)
    ensures
        v@ == s@,
{
    let mut v: Vec<char> = Vec::new();
    for c in it: s.chars()
        invariant
            v@ == it.seq().take(it.index() as int),
            it.seq() == s@,
    {
        v.push(c);
    }
    v
}

/// The string made of the characters `v[from..to]`.
pub fn string_of(v: &Vec<char>, from: usize, to: usize) -> (s: String)
    requires
        from <= to <= v.len(),
    ensures
        s@ == v@.subrange(from as int, to as int),
{
    let mut s = String::new();
    let mut i: usize = from;
    while i < to
        invariant
            from <= i <= to <= v.len(),
            s@ == v@.subrange(from as int, i as int),
        decreases to - i,
    {
        s.push(v[i]);
        i += 1;
    }
    s
}

/// A copy of `s`.
pub fn copy_text(s: &str) -> (r: String)
    ensures
        r@ == s@,
{
    let mut r = String::new();
    for c in it: s.chars()
        invariant
            r@ == it.seq().take(it.index() as int),
            it.seq() == s@,
    {
        r.push(c);
    }
    r
}

/// Appends the characters of `piece` to `out`.
pub fn push_text(out: &mut String, piece: &str)
    ensures
        final(out)@ == old(out)@ + piece@,
{
    for c in it: piece.chars()
        invariant
            out@ == old(out)@ + it.seq().take(it.index() as int),
            it.seq() == piece@,
    {
        out.push(c);
    }
}

/// Whether two strings hold the same characters.
pub fn same_text(a: &str, b: &str) -> (r: bool)
    ensures
        r == (a@ == b@),
{
    let x = a.as_bytes();
    let y = b.as_bytes();
    proof {
        encode_utf8_decode_utf8(a@);
        encode_utf8_decode_utf8(b@);
    }
    if x.len() != y.len() {
        return false;
    }
    let mut i: usize = 0;
    while i < x.len()
        invariant
            i <= x.len(),
            x.len() == y.len(),
            x@.take(i as int) == y@.take(i as int),
            x@ == encode_utf8(a@),
            y@ == encode_utf8(b@),
        decreases x.len() - i,
    {
        if x[i] != y[i] {
            return false;
        }
        assert(x@.take(i + 1) == x@.take(i as int).push(x@[i as int]));
        assert(y@.take(i + 1) == y@.take(i as int).push(y@[i as int]));
        i += 1;
    }
    assert(x@ == x@.take(x.len() as int));
    assert(y@ == y@.take(y.len() as int));
    true
}

/// `a` comes before `b` in lexicographic order of the characters' code points:
/// at the first place where they differ `a` has the smaller character, or `a` is
/// a proper prefix of `b`.
pub open spec fn text_lt(a: Seq<char>, b: Seq<char>) -> bool {
    exists|k: int|
        0 <= k <= a.len() && k <= b.len() && #[trigger] a.take(k) == b.take(k) && (if k == a.len() {
            k < b.len()
        } else {
            k < b.len() && (a[k] as u32) < (b[k] as u32)
        })
}

/// `a` is `b` or comes before it.
pub open spec fn text_le(a: Seq<char>, b: Seq<char>) -> bool {
    a == b || text_lt(a, b)
}

/// Of two different texts exactly one comes before the other.
pub proof fn lemma_text_order_total(a: Seq<char>, b: Seq<char>)
    ensures
        a == b || text_lt(a, b) || text_lt(b, a),
        !(text_lt(a, b) && text_lt(b, a)),
        !text_lt(a, a),
    decreases a.len(),
{
    assert(a.take(0) == b.take(0));
    lemma_common_prefix(a, b, 0);
    if text_lt(a, b) && text_lt(b, a) {
        let k = choose|k: int|
            0 <= k <= a.len() && k <= b.len() && #[trigger] a.take(k) == b.take(k) && (if k
                == a.len() {
                k < b.len()
            } else {
                k < b.len() && (a[k] as u32) < (b[k] as u32)
            });
        let j = choose|j: int|
            0 <= j <= b.len() && j <= a.len() && #[trigger] b.take(j) == a.take(j) && (if j
                == b.len() {
                j < a.len()
            } else {
                j < a.len() && (b[j] as u32) < (a[j] as u32)
            });
        if k < j {
            assert(b.take(j)[k] == a.take(j)[k]);
        } else if j < k {
            assert(a.take(k)[j] == b.take(k)[j]);
        }
    }
    if text_lt(a, a) {
        let k = choose|k: int|
            0 <= k <= a.len() && k <= a.len() && #[trigger] a.take(k) == a.take(k) && (if k
                == a.len() {
                k < a.len()
            } else {
                k < a.len() && (a[k] as u32) < (a[k] as u32)
            });
    }
}

/// From a common prefix of length `k` on, two texts are equal or one comes
/// before the other.
proof fn lemma_common_prefix(a: Seq<char>, b: Seq<char>, k: int)
    requires
        0 <= k <= a.len(),
        k <= b.len(),
        a.take(k) == b.take(k),
    ensures
        a == b || text_lt(a, b) || text_lt(b, a),
    decreases a.len() - k,
{
    if k == a.len() {
        if k == b.len() {
            assert(a == a.take(k));
            assert(b == b.take(k));
        } else {
            assert(text_lt(a, b));
        }
    } else if k == b.len() {
        assert(b.take(k) == a.take(k));
        assert(text_lt(b, a));
    } else if a[k] == b[k] {
        assert(a.take(k + 1) == a.take(k).push(a[k]));
        assert(b.take(k + 1) == b.take(k).push(b[k]));
        lemma_common_prefix(a, b, k + 1);
    } else {
        lemma_code_points_differ(a[k], b[k]);
        if (a[k] as u32) < (b[k] as u32) {
            assert(text_lt(a, b));
        } else {
            assert(b.take(k) == a.take(k));
            assert(text_lt(b, a));
        }
    }
}

/// Different characters have different code points.
pub(crate) proof fn lemma_code_points_differ(x: char, y: char)
    ensures
        x != y ==> (x as u32) != (y as u32),
{
    char_u32_cast(x, x as u32);
    char_u32_cast(y, y as u32);
}

/// The order is transitive.
pub proof fn lemma_text_lt_transitive(a: Seq<char>, b: Seq<char>, c: Seq<char>)
    requires
        text_lt(a, b),
        text_lt(b, c),
    ensures
        text_lt(a, c),
{
    let k = choose|k: int|
        0 <= k <= a.len() && k <= b.len() && #[trigger] a.take(k) == b.take(k) && (if k == a.len() {
            k < b.len()
        } else {
            k < b.len() && (a[k] as u32) < (b[k] as u32)
        });
    let j = choose|j: int|
        0 <= j <= b.len() && j <= c.len() && #[trigger] b.take(j) == c.take(j) && (if j == b.len() {
            j < c.len()
        } else {
            j < c.len() && (b[j] as u32) < (c[j] as u32)
        });
    let m = if k <= j { k } else { j };
    assert(a.take(m) == c.take(m)) by {
        assert(a.take(m) == a.take(k).take(m));
        assert(b.take(m) == b.take(k).take(m));
        assert(b.take(m) == b.take(j).take(m));
        assert(c.take(m) == c.take(j).take(m));
    }
    if k < j {
        assert(b.take(j)[k] == c.take(j)[k]);
    } else if j < k {
        assert(a.take(k)[j] == b.take(k)[j]);
    }
    assert(text_lt(a, c));
}

/// Whether `a` comes before `b` in lexicographic order.
pub fn text_before(a: &str, b: &str) -> (r: bool)
    ensures
        r == text_lt(a@, b@),
{
    let x = chars_of(a);
    let y = chars_of(b);
    let mut i: usize = 0;
    while i < x.len() && i < y.len()
        invariant
            i <= x.len(),
            i <= y.len(),
            x@.take(i as int) == y@.take(i as int),
            x@ == a@,
            y@ == b@,
        decreases x.len() - i,
    {
        if x[i] != y[i] {
            let r = (x[i] as u32) < (y[i] as u32);
            proof {
                lemma_code_points_differ(x@[i as int], y@[i as int]);
                if r {
                    assert(text_lt(a@, b@));
                } else {
                    assert(y@.take(i as int) == x@.take(i as int));
                    assert(text_lt(b@, a@));
                    lemma_text_order_total(a@, b@);
                }
            }
            return r;
        }
        assert(x@.take(i + 1) == x@.take(i as int).push(x@[i as int]));
        assert(y@.take(i + 1) == y@.take(i as int).push(y@[i as int]));
        i += 1;
    }
    proof {
        lemma_text_order_total(a@, b@);
        if i == x.len() {
            if i < y.len() {
                assert(text_lt(a@, b@));
            } else {
                assert(x@ == x@.take(i as int));
                assert(y@ == y@.take(i as int));
            }
        } else {
            assert(y@.take(i as int) == x@.take(i as int));
            assert(text_lt(b@, a@));
        }
    }
    i == x.len() && i < y.len()
}

/// The character of the decimal digit `d`.
pub open spec fn digit_char(d: int) -> char {
    ((48 + d) as u8) as char
}

/// Whether `c` is one of the ten decimal digits `0` to `9`.
pub open spec fn is_digit(c: char) -> bool {
    '0' <= c <= '9'
}

/// The decimal notation of a natural number, without leading zeros.
pub open spec fn dec_text(n: nat) -> Seq<char>
    decreases n,
{
    if n < 10 {
        seq![digit_char(n as int)]
    } else {
        dec_text(n / 10).push(digit_char((n % 10) as int))
    }
}

/// The decimal notation of an integer: a minus sign before a negative one.
pub open spec fn int_text(v: int) -> Seq<char> {
    if v < 0 {
        seq!['-'] + dec_text((-v) as nat)
    } else {
        dec_text(v as nat)
    }
}

/// The number that a sequence of decimal digits denotes.
pub open spec fn dec_value(ds: Seq<char>) -> nat
    decreases ds.len(),
{
    if ds.len() == 0 {
        0
    } else {
        dec_value(ds.drop_last()) * 10 + ((ds.last() as u32) - 48) as nat
    }
}

/// Every character of `ds` is a decimal digit.
pub open spec fn all_digits(ds: Seq<char>) -> bool {
    forall|i: int| 0 <= i < ds.len() ==> is_digit(#[trigger] ds[i])
}

/// The decimal notation of a number is made of digits, at least one, and
/// denotes the number.
pub proof fn lemma_dec_text(n: nat)
    ensures
        dec_text(n).len() >= 1,
        all_digits(dec_text(n)),
        dec_value(dec_text(n)) == n,
    decreases n,
{
    if n < 10 {
        assert(dec_text(n).drop_last() =~= Seq::<char>::empty());
        assert(dec_value(dec_text(n).drop_last()) == 0);
    } else {
        lemma_dec_text(n / 10);
        assert(dec_text(n).drop_last() =~= dec_text(n / 10));
    }
}

/// The character of the digit `d`.
pub(crate) fn digit_of(d: u8) -> (c: char)
    requires
        d < 10,
    ensures
        c == digit_char(d as int),
        is_digit(c),
        (c as u32) - 48 == d,
{
    (48u8 + d) as char
}

/// Appends the decimal notation of `n`.
pub fn push_natural(out: &mut String, n: u64)
    ensures
        final(out)@ == old(out)@ + dec_text(n as nat),
    decreases n,
{
    if n >= 10 {
        push_natural(out, n / 10);
    }
    out.push(digit_of((n % 10) as u8));
    assert(out@ =~= old(out)@ + dec_text(n as nat));
}

/// Appends the decimal notation of `v`.
pub fn push_integer(out: &mut String, v: i64)
    ensures
        final(out)@ == old(out)@ + int_text(v as int),
{
    if v < 0 {
        out.push('-');
        let magnitude: u64 = (-(v + 1)) as u64 + 1;
        push_natural(out, magnitude);
        assert(out@ =~= old(out)@ + int_text(v as int));
    } else {
        push_natural(out, v as u64);
    }
}

/// Whether `pattern` stands in `s` at `pos`.
pub fn occurs_at(s: &Vec<char>, pos: usize, pattern: &Vec<char>) -> (r: bool)
    requires
        pos <= s.len(),
    ensures
        r == (pos + pattern.len() <= s.len() && s@.subrange(pos as int, pos + pattern.len())
            == pattern@),
{
    if s.len() - pos < pattern.len() {
        return false;
    }
    let mut i: usize = 0;
    assert(s@.subrange(pos as int, pos + 0) =~= pattern@.take(0));
    while i < pattern.len()
        invariant
            i <= pattern.len(),
            pos + pattern.len() <= s.len(),
            s@.subrange(pos as int, pos + i) == pattern@.take(i as int),
        decreases pattern.len() - i,
    {
        if s[pos + i] != pattern[i] {
            assert(s@.subrange(pos as int, pos + pattern.len())[i as int] != pattern@[i as int]);
            return false;
        }
        assert(s@.subrange(pos as int, pos + i + 1) =~= s@.subrange(pos as int, pos + i).push(
            s@[pos + i],
        ));
        assert(pattern@.take(i + 1) =~= pattern@.take(i as int).push(pattern@[i as int]));
        i += 1;
    }
    assert(pattern@.take(pattern.len() as int) =~= pattern@);
    true
}

} // verus!
