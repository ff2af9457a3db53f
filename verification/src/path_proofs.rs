//! What the dotted-path view shows after leaves were set by their paths.

use vstd::prelude::*;
use crate::codec::put_all;
use crate::codec_proofs::{last_value, lemma_put_all_lookup};
use crate::path::{
    first_dot, flatten, flatten_into, join, lemma_first_dot, lemma_first_dot_is, spec_set,
    split_dots,
};
use crate::value::{
    key_index, keys_unique, lemma_key_index, lemma_key_index_is, lemma_put, lookup, put, Entries,
    LuaModel,
};

verus! {

/// The text holds no dot.
pub open spec fn dotless(s: Seq<char>) -> bool {
    forall|i: int| 0 <= i < s.len() ==> s[i] != '.'
}

/// No table, here or below, holds a key twice or a key with a dot.
pub open spec fn plain(es: Entries) -> bool
    decreases es,
{
    keys_unique(es) && forall|i: int|
        0 <= i < es.len() ==> dotless((#[trigger] es[i]).0) && plain_value(es[i].1)
}

/// The tables that the value holds are plain.
pub open spec fn plain_value(v: LuaModel) -> bool
    decreases v,
{
    match v {
        LuaModel::Table(n) => plain(n),
        _ => true,
    }
}

/// A plain table in which the empty key, if it is there, holds no table.
pub open spec fn rooted(es: Entries) -> bool {
    plain(es) && forall|i: int|
        0 <= i < es.len() && (#[trigger] es[i]).0.len() == 0 ==> !(es[i].1 is Table)
}

/// The table under `key`, or an empty one where the key holds none.
pub open spec fn child(es: Entries, key: Seq<char>) -> Entries {
    match lookup(es, key) {
        Some(LuaModel::Table(n)) => n,
        _ => Seq::empty(),
    }
}

/// The leaf that the path leads to: segment by segment through the tables,
/// with a value that is no table under the last segment.
pub open spec fn leaf_by_path(es: Entries, q: Seq<char>) -> Option<LuaModel>
    decreases q.len(),
{
    let k = first_dot(q);
    match lookup(es, q.take(k)) {
        Some(LuaModel::Table(n)) => if 0 <= k < q.len() {
            leaf_by_path(n, q.skip(k + 1))
        } else {
            None
        },
        Some(leaf) => if k >= q.len() {
            Some(leaf)
        } else {
            None
        },
        None => None,
    }
}

/// The table with `value` under the path, as `spec_set` makes it, told by the
/// path itself.
pub open spec fn set_by_path(es: Entries, q: Seq<char>, value: LuaModel) -> Entries
    decreases q.len(),
{
    let k = first_dot(q);
    if 0 <= k < q.len() {
        put(es, q.take(k), LuaModel::Table(set_by_path(child(es, q.take(k)), q.skip(k + 1), value)))
    } else {
        put(es, q, value)
    }
}

/// `q` lies under `p`: it is `p`, a dot, and more.
pub open spec fn under(q: Seq<char>, p: Seq<char>) -> bool {
    q.len() > p.len() && q.take(p.len() as int) == p && q[p.len() as int] == '.'
}

/// A path has at least one segment, and no segment holds a dot.
pub(crate) proof fn lemma_split_dots(s: Seq<char>)
    ensures
        split_dots(s).len() >= 1,
        split_dots(s)[0] == s.take(first_dot(s)),
        forall|i: int| 0 <= i < split_dots(s).len() ==> dotless(#[trigger] split_dots(s)[i]),
    decreases s.len(),
{
    lemma_first_dot(s);
    let k = first_dot(s);
    if k < s.len() {
        lemma_split_dots(s.skip(k + 1));
        let rest = split_dots(s.skip(k + 1));
        assert forall|i: int| 0 <= i < split_dots(s).len() implies dotless(
            #[trigger] split_dots(s)[i],
        ) by {
            if i > 0 {
                assert(split_dots(s)[i] == rest[i - 1]);
            }
        }
    } else {
        assert(s.take(k) =~= s);
    }
}

/// Setting by the segments from an index on does not look at the segments
/// before it.
pub(crate) proof fn lemma_set_shift(
    es: Entries,
    head: Seq<char>,
    segs: Seq<Seq<char>>,
    i: int,
    value: LuaModel,
)
    requires
        0 <= i < segs.len(),
    ensures
        spec_set(es, seq![head] + segs, i + 1, value) == spec_set(es, segs, i, value),
    decreases segs.len() - i,
{
    let all = seq![head] + segs;
    assert(all[i + 1] == segs[i]);
    if i + 1 < segs.len() {
        lemma_set_shift(child(es, segs[i]), head, segs, i + 1, value);
    }
}

/// Setting by the segments of a path is setting by the path.
pub proof fn lemma_set_by_path(es: Entries, q: Seq<char>, value: LuaModel)
    ensures
        spec_set(es, split_dots(q), 0, value) == set_by_path(es, q, value),
    decreases q.len(),
{
    lemma_first_dot(q);
    let k = first_dot(q);
    if k < q.len() {
        let rest = split_dots(q.skip(k + 1));
        lemma_split_dots(q.skip(k + 1));
        let sub = child(es, q.take(k));
        lemma_set_shift(sub, q.take(k), rest, 0, value);
        lemma_set_by_path(sub, q.skip(k + 1), value);
    }
}

/// A path that lies under another has the other's first segment.
pub(crate) proof fn lemma_under_shares_segment(q: Seq<char>, p: Seq<char>)
    requires
        under(q, p),
    ensures
        q.take(first_dot(q)) == p.take(first_dot(p)),
{
    lemma_first_dot(p);
    lemma_first_dot(q);
    let kp = first_dot(p);
    assert forall|j: int| 0 <= j < p.len() implies q[j] == p[j] by {
        assert(q.take(p.len() as int)[j] == p[j]);
    }
    lemma_first_dot_is(q, kp);
    assert(q.take(kp) =~= p.take(kp));
}

/// Paths with different first segments are different, and neither lies under
/// the other.
pub(crate) proof fn lemma_segments_differ(p: Seq<char>, q: Seq<char>)
    requires
        p.take(first_dot(p)) != q.take(first_dot(q)),
    ensures
        p != q,
        !under(q, p),
        !under(p, q),
{
    if under(q, p) {
        lemma_under_shares_segment(q, p);
    }
    if under(p, q) {
        lemma_under_shares_segment(p, q);
    }
}

/// A path of several segments lies under the path that is its first segment.
pub(crate) proof fn lemma_under_first_segment(q: Seq<char>, p: Seq<char>)
    requires
        first_dot(p) >= p.len(),
        first_dot(q) < q.len(),
        q.take(first_dot(q)) == p.take(first_dot(p)),
    ensures
        under(q, p),
        q != p,
{
    lemma_first_dot(p);
    lemma_first_dot(q);
    assert(p.take(first_dot(p)) =~= p);
    assert(q.take(first_dot(q)).len() == p.len());
}

/// Two paths that begin alike, up to and with a dot, stand to each other as
/// what follows the dot in them.
pub(crate) proof fn lemma_shared_start(p: Seq<char>, q: Seq<char>, k: int)
    requires
        0 <= k < p.len(),
        k < q.len(),
        p.take(k + 1) == q.take(k + 1),
        p[k] == '.',
    ensures
        (p == q) == (p.skip(k + 1) == q.skip(k + 1)),
        under(q, p) == under(q.skip(k + 1), p.skip(k + 1)),
        under(p, q) == under(p.skip(k + 1), q.skip(k + 1)),
{
    let p1 = p.skip(k + 1);
    let q1 = q.skip(k + 1);
    assert forall|j: int| 0 <= j <= k implies p[j] == q[j] by {
        assert(p.take(k + 1)[j] == p[j]);
        assert(q.take(k + 1)[j] == q[j]);
    }
    if p1 == q1 {
        assert(p1.len() == p.len() - k - 1);
        assert(q1.len() == q.len() - k - 1);
        assert(p.len() == q.len());
        assert forall|j: int| 0 <= j < p.len() implies p[j] == q[j] by {
            if j > k {
                assert(p1[j - k - 1] == q1[j - k - 1]);
            }
        }
        assert(p =~= q);
    }
    lemma_under_shift(p, q, k);
    lemma_under_shift(q, p, k);
}

/// Of two paths that begin alike, up to and with a dot, one lies under the
/// other just when it does so after the dot.
proof fn lemma_under_shift(p: Seq<char>, q: Seq<char>, k: int)
    requires
        0 <= k < p.len(),
        k < q.len(),
        forall|j: int| 0 <= j <= k ==> p[j] == q[j],
    ensures
        under(q, p) == under(q.skip(k + 1), p.skip(k + 1)),
{
    let p1 = p.skip(k + 1);
    let q1 = q.skip(k + 1);
    if under(q, p) {
        assert forall|j: int| 0 <= j < p1.len() implies q1.take(p1.len() as int)[j] == p1[j] by {
            assert(q.take(p.len() as int)[j + k + 1] == p[j + k + 1]);
        }
        assert(q1.take(p1.len() as int) =~= p1);
        assert(q1[p1.len() as int] == q[p.len() as int]);
    }
    if under(q1, p1) {
        assert forall|j: int| 0 <= j < p.len() implies q.take(p.len() as int)[j] == p[j] by {
            if j > k {
                assert(q1.take(p1.len() as int)[j - k - 1] == p1[j - k - 1]);
            }
        }
        assert(q.take(p.len() as int) =~= p);
        assert(q1[p1.len() as int] == q[p.len() as int]);
    }
}

/// After a leaf was set under the path `p`, the path `p` leads to it; a path
/// under `p`, or one that `p` lies under, leads to no leaf; and any other path
/// leads to what it led to.
pub proof fn lemma_leaf_after_set(es: Entries, p: Seq<char>, value: LuaModel, q: Seq<char>)
    requires
        !(value is Table),
    ensures
        leaf_by_path(set_by_path(es, p, value), q) == (if q == p {
            Some(value)
        } else if under(q, p) || under(p, q) {
            None
        } else {
            leaf_by_path(es, q)
        }),
    decreases p.len(),
{
    lemma_first_dot(p);
    lemma_first_dot(q);
    let kp = first_dot(p);
    let kq = first_dot(q);
    let sp = p.take(kp);
    let sq = q.take(kq);
    let after = set_by_path(es, p, value);
    if kp >= p.len() {
        assert(sp =~= p);
        lemma_put(es, p, value, sq);
        if sq == sp {
            if kq < q.len() {
                lemma_under_first_segment(q, p);
            } else {
                assert(sq =~= q);
            }
        } else {
            lemma_segments_differ(p, q);
        }
    } else {
        let sub = set_by_path(child(es, sp), p.skip(kp + 1), value);
        lemma_put(es, sp, LuaModel::Table(sub), sq);
        if sq == sp {
            assert(kq == kp) by {
                assert(sq.len() == sp.len());
            }
            if kq >= q.len() {
                lemma_under_first_segment(p, q);
            } else {
                assert(p.take(kp + 1) =~= sp.push('.'));
                assert(q.take(kq + 1) =~= sq.push('.'));
                lemma_shared_start(p, q, kp);
                lemma_leaf_after_set(child(es, sp), p.skip(kp + 1), value, q.skip(kq + 1));
                assert(leaf_by_path(after, q) == leaf_by_path(sub, q.skip(kq + 1)));
                match lookup(es, sp) {
                    Some(LuaModel::Table(n)) => {},
                    _ => {
                        assert(leaf_by_path(es, q) is None);
                        lemma_leaf_in_empty(q.skip(kq + 1));
                    },
                }
            }
        } else {
            lemma_segments_differ(p, q);
        }
    }
}

/// No path leads to a leaf in an empty table.
pub(crate) proof fn lemma_leaf_in_empty(q: Seq<char>)
    ensures
        leaf_by_path(Seq::empty(), q) is None,
{
    lemma_key_index(Seq::<(Seq<char>, LuaModel)>::empty(), q.take(first_dot(q)));
}

/// What is left of the path `q` after the prefix `prefix` and a dot; the whole
/// path after the empty prefix.
pub open spec fn strip(prefix: Seq<char>, q: Seq<char>) -> Option<Seq<char>> {
    if prefix.len() == 0 {
        Some(q)
    } else if under(q, prefix) {
        Some(q.skip(prefix.len() as int + 1))
    } else {
        None
    }
}

/// What is left of a joined path after its prefix is what was joined to it.
pub(crate) proof fn lemma_strip_join(prefix: Seq<char>, q: Seq<char>, rest: Seq<char>)
    ensures
        (strip(prefix, q) == Some(rest)) == (q == join(prefix, rest)),
{
    if prefix.len() > 0 {
        let joined = prefix + seq!['.'] + rest;
        if q == joined {
            assert(q.take(prefix.len() as int) =~= prefix);
            assert(q.skip(prefix.len() as int + 1) =~= rest);
        }
        if strip(prefix, q) == Some(rest) {
            assert(q =~= joined) by {
                assert forall|j: int| 0 <= j < q.len() implies q[j] == joined[j] by {
                    if j < prefix.len() {
                        assert(q.take(prefix.len() as int)[j] == q[j]);
                    } else if j > prefix.len() {
                        assert(q.skip(prefix.len() as int + 1)[j - prefix.len() - 1] == q[j]);
                    }
                }
            }
        }
    }
}

/// The first segment of a path that begins with a dotless key and a dot is the
/// key.
pub(crate) proof fn lemma_segment_is_key(rest: Seq<char>, key: Seq<char>)
    requires
        dotless(key),
    ensures
        (rest.take(first_dot(rest)) == key && first_dot(rest) < rest.len()) == under(rest, key),
        (rest.take(first_dot(rest)) == key && first_dot(rest) >= rest.len()) == (rest == key),
        under(rest, key) ==> first_dot(rest) == key.len(),
{
    lemma_first_dot(rest);
    let k = first_dot(rest);
    if under(rest, key) {
        assert forall|j: int| 0 <= j < key.len() implies rest[j] != '.' by {
            assert(rest.take(key.len() as int)[j] == key[j]);
        }
        lemma_first_dot_is(rest, key.len() as int);
    }
    if rest == key {
        lemma_first_dot_is(rest, rest.len() as int);
        assert(rest.take(rest.len() as int) =~= rest);
    }
    if rest.take(k) == key {
        assert(k == key.len());
        if k >= rest.len() {
            assert(rest.take(k) =~= rest);
        }
    }
}

/// What is left of a path after a prefix with one more key is what is left of
/// it after the prefix, without that key and its dot.
pub(crate) proof fn lemma_strip_deeper(prefix: Seq<char>, key: Seq<char>, q: Seq<char>)
    requires
        dotless(key),
        join(prefix, key).len() > 0,
    ensures
        strip(join(prefix, key), q) == (match strip(prefix, q) {
            Some(rest) => if under(rest, key) {
                Some(rest.skip(key.len() as int + 1))
            } else {
                None
            },
            None => None,
        }),
{
    let full = join(prefix, key);
    if prefix.len() > 0 {
        let n = prefix.len() as int;
        assert(full.len() == n + 1 + key.len());
        if under(q, full) {
            assert forall|j: int| 0 <= j < full.len() implies q[j] == full[j] by {
                assert(q.take(full.len() as int)[j] == q[j]);
            }
            assert(q.take(n) =~= prefix);
            assert(q[n] == full[n]);
            let rest = q.skip(n + 1);
            assert(rest.take(key.len() as int) =~= key);
            assert(rest[key.len() as int] == q[full.len() as int]);
            assert(rest.skip(key.len() as int + 1) =~= q.skip(full.len() as int + 1));
        }
        if under(q, prefix) {
            let rest = q.skip(n + 1);
            if under(rest, key) {
                assert forall|j: int| 0 <= j < full.len() implies q[j] == full[j] by {
                    if j < n {
                        assert(q.take(n)[j] == q[j]);
                    } else if j > n {
                        assert(rest.take(key.len() as int)[j - n - 1] == rest[j - n - 1]);
                    }
                }
                assert(q.take(full.len() as int) =~= full);
                assert(rest[key.len() as int] == q[full.len() as int]);
                assert(rest.skip(key.len() as int + 1) =~= q.skip(full.len() as int + 1));
            }
        }
    }
}

/// The leaf that the path `rest` leads to through one entry's value: through a
/// table where more segments follow, or the value itself where none does.
pub open spec fn entry_leaf(v: LuaModel, rest: Seq<char>) -> Option<LuaModel> {
    match v {
        LuaModel::Table(n) => if 0 <= first_dot(rest) < rest.len() {
            leaf_by_path(n, rest.skip(first_dot(rest) + 1))
        } else {
            None
        },
        leaf => if first_dot(rest) >= rest.len() {
            Some(leaf)
        } else {
            None
        },
    }
}

/// The leaf that the path `q` leads to under `prefix`, through the entries from
/// index `i` on.
pub open spec fn leaf_from(es: Entries, i: int, prefix: Seq<char>, q: Seq<char>) -> Option<
    LuaModel,
> {
    match strip(prefix, q) {
        Some(rest) => match key_index(es, rest.take(first_dot(rest))) {
            Some(j) => if j >= i {
                entry_leaf(es[j].1, rest)
            } else {
                None
            },
            None => None,
        },
        None => None,
    }
}

/// In entries without a repeated key, the last value under a key is the first.
pub(crate) proof fn lemma_last_is_first(es: Entries, i: int, key: Seq<char>)
    requires
        0 <= i <= es.len(),
        keys_unique(es),
    ensures
        last_value(es, i, key) == (match key_index(es, key) {
            Some(j) => if j >= i {
                Some(es[j].1)
            } else {
                None
            },
            None => None,
        }),
    decreases es.len() - i,
{
    lemma_key_index(es, key);
    if i < es.len() {
        lemma_last_is_first(es, i + 1, key);
    }
}

/// The flattened entries hold no path twice.
pub(crate) proof fn lemma_flatten_unique(acc: Entries, es: Entries, i: int, prefix: Seq<char>)
    requires
        0 <= i <= es.len(),
        keys_unique(acc),
    ensures
        keys_unique(flatten_into(acc, es, i, prefix)),
    decreases es, es.len() - i,
{
    if i < es.len() {
        let full = join(prefix, es[i].0);
        match es[i].1 {
            LuaModel::Table(nested) => {
                let sub = flatten_into(Seq::empty(), nested, 0, full);
                lemma_put_all_lookup(acc, sub, 0, full);
                lemma_flatten_unique(put_all(acc, sub, 0), es, i + 1, prefix);
            },
            leaf => {
                lemma_put(acc, full, leaf, full);
                lemma_flatten_unique(put(acc, full, leaf), es, i + 1, prefix);
            },
        }
    }
}

/// The leaf that a path leads to in a table is the leaf that it leads to
/// through the entry of its first segment.
pub(crate) proof fn lemma_leaf_by_entry(es: Entries, rest: Seq<char>)
    ensures
        leaf_by_path(es, rest) == (match key_index(es, rest.take(first_dot(rest))) {
            Some(j) => entry_leaf(es[j].1, rest),
            None => None,
        }),
{
    lemma_first_dot(rest);
}

/// What one entry's leaves add under a path: the leaf that the path leads to
/// through the entry, under the prefix.
pub open spec fn entry_adds(
    es: Entries,
    i: int,
    prefix: Seq<char>,
    q: Seq<char>,
) -> Option<LuaModel> {
    match strip(prefix, q) {
        Some(rest) => if rest.take(first_dot(rest)) == es[i].0 {
            entry_leaf(es[i].1, rest)
        } else {
            None
        },
        None => None,
    }
}

/// The leaf that a path leads to through the entries from `i` on is the one
/// that it leads to through the entry `i`, or else through those after it.
pub(crate) proof fn lemma_leaf_from_step(es: Entries, i: int, prefix: Seq<char>, q: Seq<char>)
    requires
        0 <= i < es.len(),
        keys_unique(es),
    ensures
        leaf_from(es, i, prefix, q) == (match leaf_from(es, i + 1, prefix, q) {
            Some(v) => Some(v),
            None => entry_adds(es, i, prefix, q),
        }),
        leaf_from(es, i + 1, prefix, q) is Some ==> entry_adds(es, i, prefix, q) is None,
{
    match strip(prefix, q) {
        Some(rest) => {
            let seg = rest.take(first_dot(rest));
            lemma_key_index(es, seg);
            if seg == es[i].0 {
                lemma_key_index_is(es, seg, i);
            }
        },
        None => {},
    }
}

/// What the flattened entries hold under a path: the leaf that the path leads
/// to under the prefix through the entries that were flattened, else what was
/// held already.
pub(crate) proof fn lemma_flatten_lookup(
    acc: Entries,
    es: Entries,
    i: int,
    prefix: Seq<char>,
    q: Seq<char>,
)
    requires
        0 <= i <= es.len(),
        plain(es),
        prefix.len() == 0 ==> rooted(es),
    ensures
        lookup(flatten_into(acc, es, i, prefix), q) == (match leaf_from(es, i, prefix, q) {
            Some(v) => Some(v),
            None => lookup(acc, q),
        }),
    decreases es, es.len() - i, 1nat,
{
    if i < es.len() {
        let key = es[i].0;
        let full = join(prefix, key);
        assert(dotless(key));
        lemma_leaf_from_step(es, i, prefix, q);
        let adds = entry_adds(es, i, prefix, q);
        let next = match es[i].1 {
            LuaModel::Table(nested) => put_all(
                acc,
                flatten_into(Seq::empty(), nested, 0, full),
                0,
            ),
            leaf => put(acc, full, leaf),
        };
        assert(lookup(next, q) == (match adds {
            Some(v) => Some(v),
            None => lookup(acc, q),
        })) by {
            lemma_entry_lookup(acc, es, i, prefix, q);
        }
        lemma_flatten_lookup(next, es, i + 1, prefix, q);
    } else {
        match strip(prefix, q) {
            Some(rest) => {
                lemma_key_index(es, rest.take(first_dot(rest)));
            },
            None => {},
        }
    }
}

/// What the entries hold under a path after the leaves of one entry were put
/// in.
pub(crate) proof fn lemma_entry_lookup(
    acc: Entries,
    es: Entries,
    i: int,
    prefix: Seq<char>,
    q: Seq<char>,
)
    requires
        0 <= i < es.len(),
        plain(es),
        prefix.len() == 0 ==> rooted(es),
    ensures
        lookup(
            match es[i].1 {
                LuaModel::Table(nested) => put_all(
                    acc,
                    flatten_into(Seq::empty(), nested, 0, join(prefix, es[i].0)),
                    0,
                ),
                leaf => put(acc, join(prefix, es[i].0), leaf),
            },
            q,
        ) == (match entry_adds(es, i, prefix, q) {
            Some(v) => Some(v),
            None => lookup(acc, q),
        }),
    decreases es, es.len() - i, 0nat,
{
    let key = es[i].0;
    let full = join(prefix, key);
    assert(dotless(key));
    assert(plain_value(es[i].1));
    lemma_strip_join(prefix, q, key);
    match strip(prefix, q) {
        Some(rest) => {
            lemma_segment_is_key(rest, key);
        },
        None => {},
    }
    match es[i].1 {
        LuaModel::Table(nested) => {
            assert(key.len() > 0 || prefix.len() > 0);
            assert(full.len() > 0);
            let sub = flatten_into(Seq::empty(), nested, 0, full);
            lemma_flatten_unique(Seq::empty(), nested, 0, full);
            lemma_put_all_lookup(acc, sub, 0, q);
            lemma_last_is_first(sub, 0, q);
            assert(last_value(sub, 0, q) == lookup(sub, q)) by {
                lemma_key_index(sub, q);
            }
            lemma_flatten_lookup(Seq::empty(), nested, 0, full, q);
            lemma_key_index(Seq::<(Seq<char>, LuaModel)>::empty(), q);
            assert(lookup(sub, q) == leaf_from(nested, 0, full, q));
            lemma_strip_deeper(prefix, key, q);
            match strip(full, q) {
                Some(deeper) => {
                    lemma_leaf_by_entry(nested, deeper);
                    lemma_key_index(nested, deeper.take(first_dot(deeper)));
                    assert(leaf_from(nested, 0, full, q) == leaf_by_path(nested, deeper));
                },
                None => {},
            }
        },
        leaf => {
            lemma_put(acc, full, leaf, q);
        },
    }
}

/// In a table whose keys hold no dots, with no table under the empty key, the
/// flattened entries hold under each path the leaf that the path leads to.
pub proof fn lemma_flatten_shows_leaves(es: Entries, q: Seq<char>)
    requires
        rooted(es),
    ensures
        lookup(flatten(es, Seq::empty()), q) == leaf_by_path(es, q),
{
    lemma_flatten_lookup(Seq::empty(), es, 0, Seq::empty(), q);
    lemma_key_index(Seq::<(Seq<char>, LuaModel)>::empty(), q);
    lemma_leaf_by_entry(es, q);
    lemma_key_index(es, q.take(first_dot(q)));
}

/// A plain table stays plain when a plain value is put under a dotless key,
/// and rooted when the value under the empty key is no table.
pub(crate) proof fn lemma_put_plain(es: Entries, key: Seq<char>, value: LuaModel)
    requires
        plain(es),
        dotless(key),
        plain_value(value),
    ensures
        plain(put(es, key, value)),
        rooted(es) && (key.len() == 0 ==> !(value is Table)) ==> rooted(put(es, key, value)),
{
    let after = put(es, key, value);
    lemma_put(es, key, value, key);
    lemma_key_index(es, key);
    assert forall|i: int| 0 <= i < after.len() implies dotless((#[trigger] after[i]).0)
        && plain_value(after[i].1) by {
        match key_index(es, key) {
            Some(j) => {
                if i != j {
                    assert(after[i] == es[i]);
                }
            },
            None => {
                if i < es.len() {
                    assert(after[i] == es[i]);
                }
            },
        }
    }
    if rooted(es) && (key.len() == 0 ==> !(value is Table)) {
        assert forall|i: int| 0 <= i < after.len() && (#[trigger] after[i]).0.len()
            == 0 implies !(after[i].1 is Table) by {
            match key_index(es, key) {
                Some(j) => {
                    if i != j {
                        assert(after[i] == es[i]);
                    }
                },
                None => {
                    if i < es.len() {
                        assert(after[i] == es[i]);
                    }
                },
            }
        }
    }
}

/// The table under a key of a plain table is plain.
pub(crate) proof fn lemma_child_plain(es: Entries, key: Seq<char>)
    requires
        plain(es),
    ensures
        plain(child(es, key)),
{
    lemma_key_index(es, key);
    match key_index(es, key) {
        Some(j) => {
            assert(plain_value(es[j].1));
        },
        None => {},
    }
}

/// A plain table stays plain when a leaf is set by a path, and rooted when the
/// path does not begin with a dot.
pub(crate) proof fn lemma_set_plain(es: Entries, p: Seq<char>, value: LuaModel)
    requires
        plain(es),
        !(value is Table),
    ensures
        plain(set_by_path(es, p, value)),
        rooted(es) && (p.len() == 0 || p[0] != '.') ==> rooted(set_by_path(es, p, value)),
    decreases p.len(),
{
    lemma_first_dot(p);
    let k = first_dot(p);
    if k < p.len() {
        let sub = child(es, p.take(k));
        lemma_child_plain(es, p.take(k));
        lemma_set_plain(sub, p.skip(k + 1), value);
        lemma_put_plain(es, p.take(k), LuaModel::Table(set_by_path(sub, p.skip(k + 1), value)));
    } else {
        assert(p.take(k) =~= p);
        lemma_put_plain(es, p, value);
    }
}

/// The table after the first `n` of a list of leaves were set by their paths,
/// one after the other, in an empty table.
pub open spec fn apply_sets(sets: Seq<(Seq<char>, LuaModel)>, n: int) -> Entries
    decreases n,
{
    if n <= 0 || n > sets.len() {
        Seq::empty()
    } else {
        spec_set(apply_sets(sets, n - 1), split_dots(sets[n - 1].0), 0, sets[n - 1].1)
    }
}

/// The leaf that was set last under the path `q`, among the first `n`.
pub open spec fn last_set(sets: Seq<(Seq<char>, LuaModel)>, n: int, q: Seq<char>) -> Option<
    LuaModel,
>
    decreases n,
{
    if n <= 0 || n > sets.len() {
        None
    } else if sets[n - 1].0 == q {
        Some(sets[n - 1].1)
    } else {
        last_set(sets, n - 1, q)
    }
}

/// Every value is a leaf, no path begins with a dot, and no path lies under
/// another: none is another, a dot, and more.
pub open spec fn settable(sets: Seq<(Seq<char>, LuaModel)>) -> bool {
    &&& forall|i: int|
        0 <= i < sets.len() ==> !((#[trigger] sets[i]).1 is Table) && (sets[i].0.len() == 0
            || sets[i].0[0] != '.')
    &&& forall|i: int, j: int|
        0 <= i < sets.len() && 0 <= j < sets.len() ==> !under(
            (#[trigger] sets[i]).0,
            (#[trigger] sets[j]).0,
        )
}

/// A path under which a leaf was set is the path of one of the sets.
pub(crate) proof fn lemma_last_set_index(sets: Seq<(Seq<char>, LuaModel)>, n: int, q: Seq<char>) -> (i:
    int)
    requires
        last_set(sets, n, q) is Some,
    ensures
        0 <= i < n <= sets.len(),
        sets[i].0 == q,
    decreases n,
{
    if sets[n - 1].0 == q {
        n - 1
    } else {
        lemma_last_set_index(sets, n - 1, q)
    }
}

/// After leaves were set by their paths, the table is rooted, and each path
/// leads to the leaf that was set last under it.
pub(crate) proof fn lemma_leaf_after_sets(sets: Seq<(Seq<char>, LuaModel)>, n: int, q: Seq<char>)
    requires
        settable(sets),
        0 <= n <= sets.len(),
    ensures
        rooted(apply_sets(sets, n)),
        leaf_by_path(apply_sets(sets, n), q) == last_set(sets, n, q),
    decreases n,
{
    if n == 0 {
        lemma_leaf_in_empty(q);
        assert(plain(Seq::<(Seq<char>, LuaModel)>::empty()));
    } else {
        let before = apply_sets(sets, n - 1);
        let p = sets[n - 1].0;
        let value = sets[n - 1].1;
        lemma_leaf_after_sets(sets, n - 1, q);
        lemma_set_by_path(before, p, value);
        lemma_set_plain(before, p, value);
        lemma_leaf_after_set(before, p, value, q);
        if q != p && (under(q, p) || under(p, q)) {
            if last_set(sets, n - 1, q) is Some {
                let i = lemma_last_set_index(sets, n - 1, q);
                assert(!under(sets[i].0, sets[n - 1].0));
                assert(!under(sets[n - 1].0, sets[i].0));
            }
        }
    }
}

/// After leaves were set by their dotted paths in an empty table, the
/// flattened view holds under each path the leaf that was set last under it,
/// and holds nothing else: given that every value is a leaf, that no path
/// begins with a dot, and that no path is another path, a dot, and more.
pub proof fn lemma_flatten_after_sets(sets: Seq<(Seq<char>, LuaModel)>, q: Seq<char>)
    requires
        settable(sets),
    ensures
        lookup(flatten(apply_sets(sets, sets.len() as int), Seq::empty()), q) == last_set(
            sets,
            sets.len() as int,
            q,
        ),
{
    lemma_leaf_after_sets(sets, sets.len() as int, q);
    lemma_flatten_shows_leaves(apply_sets(sets, sets.len() as int), q);
}

/// A table that holds each key once, here and below, still does so after a
/// value that does so was set by a path.
pub proof fn lemma_set_wf(es: Entries, segs: Seq<Seq<char>>, i: int, value: LuaModel)
    requires
        0 <= i < segs.len(),
        crate::value::entries_wf(es),
        value.wf(),
    ensures
        crate::value::entries_wf(spec_set(es, segs, i, value)),
    decreases segs.len() - i,
{
    if i + 1 < segs.len() {
        let sub = child(es, segs[i]);
        lemma_key_index(es, segs[i]);
        match key_index(es, segs[i]) {
            Some(j) => {
                assert(es[j].1.wf());
            },
            None => {},
        }
        lemma_set_wf(sub, segs, i + 1, value);
        crate::codec_proofs::lemma_put_wf(
            es,
            segs[i],
            LuaModel::Table(spec_set(sub, segs, i + 1, value)),
        );
    } else {
        crate::codec_proofs::lemma_put_wf(es, segs[i], value);
    }
}

/// None of the entries holds a table.
pub open spec fn leaves_only(es: Entries) -> bool {
    forall|i: int| 0 <= i < es.len() ==> !((#[trigger] es[i]).1 is Table)
}

/// Entries that hold leaves only still do so after a leaf was put in.
pub(crate) proof fn lemma_put_leaf(es: Entries, key: Seq<char>, value: LuaModel)
    requires
        leaves_only(es),
        !(value is Table),
    ensures
        leaves_only(put(es, key, value)),
{
    let after = put(es, key, value);
    lemma_key_index(es, key);
    assert forall|i: int| 0 <= i < after.len() implies !((#[trigger] after[i]).1 is Table) by {
        match key_index(es, key) {
            Some(j) => {
                if i != j {
                    assert(after[i] == es[i]);
                }
            },
            None => {
                if i < es.len() {
                    assert(after[i] == es[i]);
                }
            },
        }
    }
}

/// Entries that hold leaves only still do so after leaves were put in.
pub(crate) proof fn lemma_put_all_leaves(acc: Entries, es: Entries, i: int)
    requires
        0 <= i <= es.len(),
        leaves_only(acc),
        leaves_only(es),
    ensures
        leaves_only(put_all(acc, es, i)),
    decreases es.len() - i,
{
    if i < es.len() {
        lemma_put_leaf(acc, es[i].0, es[i].1);
        lemma_put_all_leaves(put(acc, es[i].0, es[i].1), es, i + 1);
    }
}

/// The flattened entries hold leaves only.
pub(crate) proof fn lemma_flatten_leaves(acc: Entries, es: Entries, i: int, prefix: Seq<char>)
    requires
        0 <= i <= es.len(),
        leaves_only(acc),
    ensures
        leaves_only(flatten_into(acc, es, i, prefix)),
    decreases es, es.len() - i,
{
    if i < es.len() {
        let full = join(prefix, es[i].0);
        match es[i].1 {
            LuaModel::Table(nested) => {
                let sub = flatten_into(Seq::empty(), nested, 0, full);
                lemma_flatten_leaves(Seq::empty(), nested, 0, full);
                lemma_put_all_leaves(acc, sub, 0);
                lemma_flatten_leaves(put_all(acc, sub, 0), es, i + 1, prefix);
            },
            leaf => {
                lemma_put_leaf(acc, full, leaf);
                lemma_flatten_leaves(put(acc, full, leaf), es, i + 1, prefix);
            },
        }
    }
}

} // verus!
