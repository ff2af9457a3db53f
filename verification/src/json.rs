//! The structural tree of a JSON payload, kept as it was read, and the edits
//! that reach into it by a path of keys.

use vstd::prelude::*;
use crate::text::copy_text;
use crate::value::{find_key, key_index, lemma_key_index, lemma_key_index_is, put, without};

verus! {

/// A JSON number: a non-negative integer, a negative integer, or the 64 bits of
/// a finite double.
#[derive(Clone, Copy, Debug, PartialEq, Eq, Structural)]
pub enum JsonNumber {
    PosInt(u64),
    NegInt(i64),
    Float(u64),
}

/// A node of a JSON tree. An object holds its members in the order in which
/// their keys were first inserted, each key once.
#[derive(Debug, PartialEq)]
pub enum JsonValue {
    Null,
    Bool(bool),
    Number(JsonNumber),
    String(String),
    Array(Vec<JsonValue>),
    Object(Vec<(String, JsonValue)>),
}

/// What a `JsonValue` stands for.
pub enum JsonModel {
    Null,
    Bool(bool),
    Number(JsonNumber),
    Text(Seq<char>),
    Array(Seq<JsonModel>),
    Object(Seq<(Seq<char>, JsonModel)>),
}

/// The members of an object's model.
pub type Members = Seq<(Seq<char>, JsonModel)>;

/// The model of an object's members, member by member.
pub open spec fn object_view(t: Seq<(String, JsonValue)>) -> Members
    decreases t,
{
    Seq::new(
        t.len(),
        |i: int|
            if 0 <= i < t.len() {
                (t[i].0@, t[i].1@)
            } else {
                (Seq::empty(), JsonModel::Null)
            },
    )
}

/// The model of an array's items, item by item.
pub open spec fn array_view(t: Seq<JsonValue>) -> Seq<JsonModel>
    decreases t,
{
    Seq::new(
        t.len(),
        |i: int|
            if 0 <= i < t.len() {
                t[i]@
            } else {
                JsonModel::Null
            },
    )
}

impl View for JsonValue {
    type V = JsonModel;

    open spec fn view(&self) -> JsonModel
        decreases self,
    {
        match self {
            JsonValue::Null => JsonModel::Null,
            JsonValue::Bool(b) => JsonModel::Bool(*b),
            JsonValue::Number(n) => JsonModel::Number(*n),
            JsonValue::String(s) => JsonModel::Text(s@),
            JsonValue::Array(a) => JsonModel::Array(array_view(a@)),
            JsonValue::Object(t) => JsonModel::Object(object_view(t@)),
        }
    }
}

impl JsonModel {
    /// No object of the tree holds a key twice.
    pub open spec fn wf(self) -> bool
        decreases self,
    {
        match self {
            JsonModel::Array(items) => items_wf(items),
            JsonModel::Object(ms) => members_wf(ms),
            _ => true,
        }
    }
}

/// No object among or below the items holds a key twice.
pub open spec fn items_wf(items: Seq<JsonModel>) -> bool
    decreases items,
{
    forall|i: int| 0 <= i < items.len() ==> (#[trigger] items[i]).wf()
}

/// No key stands twice among the members, nor in an object below them.
pub open spec fn members_wf(ms: Members) -> bool
    decreases ms,
{
    crate::value::keys_unique(ms) && forall|i: int| 0 <= i < ms.len() ==> (#[trigger] ms[i]).1.wf()
}

/// The number that stands for the integer `v`.
pub open spec fn int_number(v: i64) -> JsonModel {
    if v >= 0 {
        JsonModel::Number(JsonNumber::PosInt(v as u64))
    } else {
        JsonModel::Number(JsonNumber::NegInt(v))
    }
}

/// Whether the bits are those of a finite double: the eleven bits of the
/// exponent are not all set.
pub open spec fn finite_bits(bits: u64) -> bool {
    (bits / 0x10_0000_0000_0000) % 0x800 != 0x7ff
}

/// The node that stands for the double with these bits: a number where it is
/// finite, else null.
pub open spec fn float_node(bits: u64) -> JsonModel {
    if finite_bits(bits) {
        JsonModel::Number(JsonNumber::Float(bits))
    } else {
        JsonModel::Null
    }
}

/// The array of the texts `names`.
pub open spec fn texts_node(names: Seq<Seq<char>>) -> JsonModel {
    JsonModel::Array(Seq::new(names.len(), |i: int| JsonModel::Text(names[i])))
}

impl JsonValue {
    /// A copy of the node, with all that it holds.
    pub fn duplicate(&self) -> (r: JsonValue)
        ensures
            r@ == self@,
        decreases self,
    {
        match self {
            JsonValue::Null => JsonValue::Null,
            JsonValue::Bool(b) => JsonValue::Bool(*b),
            JsonValue::Number(n) => JsonValue::Number(*n),
            JsonValue::String(s) => JsonValue::String(copy_text(s.as_str())),
            JsonValue::Array(a) => JsonValue::Array(duplicate_items(a)),
            JsonValue::Object(t) => JsonValue::Object(duplicate_members(t)),
        }
    }
}

/// A copy of the items of an array.
pub fn duplicate_items(a: &Vec<JsonValue>) -> (r: Vec<JsonValue>)
    ensures
        array_view(r@) == array_view(a@),
    decreases a,
{
    let mut out: Vec<JsonValue> = Vec::new();
    let mut i: usize = 0;
    while i < a.len()
        invariant
            i <= a.len(),
            out.len() == i,
            forall|j: int| 0 <= j < i ==> (#[trigger] out@[j])@ == a@[j]@,
        decreases a.len() - i,
    {
        out.push(a[i].duplicate());
        i += 1;
    }
    assert(array_view(out@) =~= array_view(a@));
    out
}

/// A copy of the members of an object.
pub fn duplicate_members(t: &Vec<(String, JsonValue)>) -> (r: Vec<(String, JsonValue)>)
    ensures
        object_view(r@) == object_view(t@),
    decreases t,
{
    let mut out: Vec<(String, JsonValue)> = Vec::new();
    let mut i: usize = 0;
    while i < t.len()
        invariant
            i <= t.len(),
            out.len() == i,
            forall|j: int|
                0 <= j < i ==> (#[trigger] out@[j]).0@ == t@[j].0@ && out@[j].1@ == t@[j].1@,
        decreases t.len() - i,
    {
        let entry = &t[i];
        out.push((copy_text(entry.0.as_str()), entry.1.duplicate()));
        i += 1;
    }
    assert(object_view(out@) =~= object_view(t@));
    out
}

/// The node of an integer.
pub fn json_int(v: i64) -> (r: JsonValue)
    ensures
        r@ == int_number(v),
{
    if v >= 0 {
        JsonValue::Number(JsonNumber::PosInt(v as u64))
    } else {
        JsonValue::Number(JsonNumber::NegInt(v))
    }
}

/// The node of the double with these bits.
pub fn json_float(bits: u64) -> (r: JsonValue)
    ensures
        r@ == float_node(bits),
{
    if (bits / 0x10_0000_0000_0000) % 0x800 != 0x7ff {
        JsonValue::Number(JsonNumber::Float(bits))
    } else {
        JsonValue::Null
    }
}

/// The node of a text.
pub fn json_text(s: &str) -> (r: JsonValue)
    ensures
        r@ == JsonModel::Text(s@),
{
    JsonValue::String(copy_text(s))
}

/// The array of the texts of `items`.
pub fn json_texts(items: &Vec<String>) -> (r: JsonValue)
    ensures
        r@ == texts_node(keys_view(items@)),
{
    let mut out: Vec<JsonValue> = Vec::new();
    let mut i: usize = 0;
    while i < items.len()
        invariant
            i <= items.len(),
            out.len() == i,
            forall|j: int| 0 <= j < i ==> (#[trigger] out@[j])@ == JsonModel::Text(items@[j]@),
        decreases items.len() - i,
    {
        out.push(json_text(items[i].as_str()));
        i += 1;
    }
    assert(array_view(out@) =~= Seq::new(
        keys_view(items@).len(),
        |i: int| JsonModel::Text(keys_view(items@)[i]),
    ));
    JsonValue::Array(out)
}

/// A member: a key with its node.
pub fn member(key: &str, value: JsonValue) -> (r: (String, JsonValue))
    ensures
        r.0@ == key@,
        r.1 == value,
{
    (copy_text(key), value)
}

/// What `find_key` returns is what `key_index` names on the object's model.
pub(crate) proof fn lemma_find_in_object(t: Seq<(String, JsonValue)>, key: Seq<char>, r: Option<usize>)
    requires
        match r {
            Some(i) => i < t.len() && t[i as int].0@ == key && forall|j: int|
                0 <= j < i ==> (#[trigger] t[j]).0@ != key,
            None => forall|j: int| 0 <= j < t.len() ==> (#[trigger] t[j]).0@ != key,
        },
    ensures
        match r {
            Some(i) => key_index(object_view(t), key) == Some(i as int),
            None => key_index(object_view(t), key) is None,
        },
{
    let es = object_view(t);
    lemma_key_index(es, key);
    match r {
        Some(i) => {
            assert(es[i as int].0 == key);
            assert forall|j: int| 0 <= j < i implies (#[trigger] es[j]).0 != key by {
                assert(t[j].0@ != key);
            }
            lemma_key_index_is(es, key, i as int);
        },
        None => {
            if let Some(i) = key_index(es, key) {
                assert(t[i].0@ != key);
            }
        },
    }
}

/// The index of the member of `t` whose key is `key`.
pub fn find_member(t: &Vec<(String, JsonValue)>, key: &str) -> (r: Option<usize>)
    ensures
        match r {
            Some(i) => i < t.len() && key_index(object_view(t@), key@) == Some(i as int),
            None => key_index(object_view(t@), key@) is None,
        },
{
    let r = find_key(t, key);
    proof {
        lemma_find_in_object(t@, key@, r);
    }
    r
}

/// Puts `value` under `key`: over the node that the key holds already, else as
/// a new last member.
pub fn object_insert(t: &mut Vec<(String, JsonValue)>, key: String, value: JsonValue)
    ensures
        object_view(final(t)@) == put(object_view(old(t)@), key@, value@),
{
    match find_member(t, key.as_str()) {
        Some(i) => {
            let slot: &mut (String, JsonValue) = &mut t[i];
            *slot = (key, value);
            assert(object_view(t@) =~= put(object_view(old(t)@), key@, value@));
        },
        None => {
            t.push((key, value));
            assert(object_view(t@) =~= put(object_view(old(t)@), key@, value@));
        },
    }
}

/// Takes the member under `key` out, where there is one.
pub fn object_remove(t: &mut Vec<(String, JsonValue)>, key: &str)
    ensures
        object_view(final(t)@) == without(object_view(old(t)@), key@),
{
    match find_member(t, key) {
        Some(i) => {
            let _ = t.remove(i);
            assert(object_view(t@) =~= without(object_view(old(t)@), key@));
        },
        None => {},
    }
}

/// The members of `fields` from index `i` on, put one after the other into
/// `acc`.
pub open spec fn put_members(acc: Members, fields: Members, i: int) -> Members
    decreases fields.len() - i,
{
    if 0 <= i < fields.len() {
        put_members(put(acc, fields[i].0, fields[i].1), fields, i + 1)
    } else {
        acc
    }
}

/// `acc` without the members whose keys are `keys`, from index `i` on.
pub open spec fn drop_members(acc: Members, keys: Seq<Seq<char>>, i: int) -> Members
    decreases keys.len() - i,
{
    if 0 <= i < keys.len() {
        drop_members(without(acc, keys[i]), keys, i + 1)
    } else {
        acc
    }
}

/// The node with the members of `fields` put into it, where it is an object;
/// any other node as it is.
pub open spec fn with_fields(v: JsonModel, fields: Members) -> JsonModel {
    match v {
        JsonModel::Object(es) => JsonModel::Object(put_members(es, fields, 0)),
        other => other,
    }
}

/// The node without the members whose keys are `keys`, where it is an object;
/// any other node as it is.
pub open spec fn without_keys(v: JsonModel, keys: Seq<Seq<char>>) -> JsonModel {
    match v {
        JsonModel::Object(es) => JsonModel::Object(drop_members(es, keys, 0)),
        other => other,
    }
}

/// One edit of an object: members to put in, or keys to take out.
pub enum Edit {
    Put(Members),
    Drop(Seq<Seq<char>>),
}

/// The node after the edit.
pub open spec fn edited(v: JsonModel, edit: Edit) -> JsonModel {
    match edit {
        Edit::Put(fields) => with_fields(v, fields),
        Edit::Drop(keys) => without_keys(v, keys),
    }
}

/// The tree with the edit made in the node that the keys of `path` lead to,
/// from index `i` on. Where a key is missing, or a node on the way is no
/// object, the tree is as it was. The node under each key stays in its place.
pub open spec fn edit_at(v: JsonModel, path: Seq<Seq<char>>, i: int, edit: Edit) -> JsonModel
    decreases path.len() - i,
{
    if 0 <= i < path.len() {
        match v {
            JsonModel::Object(es) => match key_index(es, path[i]) {
                Some(j) => JsonModel::Object(
                    es.update(j, (es[j].0, edit_at(es[j].1, path, i + 1, edit))),
                ),
                None => v,
            },
            _ => v,
        }
    } else {
        edited(v, edit)
    }
}

/// Whether the keys of `path`, from index `i` on, lead to an object that holds
/// `key`.
pub open spec fn has_member(v: JsonModel, path: Seq<Seq<char>>, i: int, key: Seq<char>) -> bool
    decreases path.len() - i,
{
    match v {
        JsonModel::Object(es) => if 0 <= i < path.len() {
            match key_index(es, path[i]) {
                Some(j) => has_member(es[j].1, path, i + 1, key),
                None => false,
            }
        } else {
            key_index(es, key) is Some
        },
        _ => false,
    }
}

/// The texts of a path.
pub open spec fn path_view(path: Seq<&str>) -> Seq<Seq<char>> {
    Seq::new(path.len(), |i: int| path[i]@)
}

/// The model of a list of keys.
pub open spec fn keys_view(keys: Seq<String>) -> Seq<Seq<char>> {
    Seq::new(keys.len(), |i: int| keys[i]@)
}

/// Whether the keys of `path` lead to an object that holds `key`.
pub fn probe(root: &JsonValue, path: &Vec<&str>, key: &str) -> (r: bool)
    ensures
        r == has_member(root@, path_view(path@), 0, key@),
{
    probe_from(root, path, 0, key)
}

/// Whether the keys of `path`, from index `i` on, lead to an object that holds
/// `key`.
fn probe_from(root: &JsonValue, path: &Vec<&str>, i: usize, key: &str) -> (r: bool)
    requires
        i <= path.len(),
    ensures
        r == has_member(root@, path_view(path@), i as int, key@),
    decreases path.len() - i,
{
    match root {
        JsonValue::Object(t) => {
            if i < path.len() {
                match find_member(t, path[i]) {
                    Some(j) => probe_from(&t[j].1, path, i + 1, key),
                    None => false,
                }
            } else {
                find_member(t, key).is_some()
            }
        },
        _ => false,
    }
}

/// Puts the members of `fields` into the object `t`.
pub fn put_fields(t: &mut Vec<(String, JsonValue)>, fields: Vec<(String, JsonValue)>)
    ensures
        object_view(final(t)@) == put_members(object_view(old(t)@), object_view(fields@), 0),
{
    let ghost fv = object_view(fields@);
    let ghost start = object_view(t@);
    for entry in it: fields
        invariant
            it.seq() == fields@,
            fv == object_view(fields@),
            put_members(start, fv, 0) == put_members(object_view(t@), fv, it.index() as int),
    {
        let (k, x) = entry;
        object_insert(t, k, x);
    }
}

/// Takes the members whose keys are `keys` out of the object `t`.
pub fn drop_fields(t: &mut Vec<(String, JsonValue)>, keys: &Vec<String>)
    ensures
        object_view(final(t)@) == drop_members(object_view(old(t)@), keys_view(keys@), 0),
{
    let ghost kv = keys_view(keys@);
    let ghost start = object_view(t@);
    let mut i: usize = 0;
    while i < keys.len()
        invariant
            i <= keys.len(),
            kv == keys_view(keys@),
            drop_members(start, kv, 0) == drop_members(object_view(t@), kv, i as int),
        decreases keys.len() - i,
    {
        object_remove(t, keys[i].as_str());
        i += 1;
    }
}

/// Puts the members of `fields` into the object that the keys of `path` lead
/// to. Where they lead to none, nothing changes.
pub fn put_at(root: &mut JsonValue, path: &Vec<&str>, fields: Vec<(String, JsonValue)>)
    ensures
        final(root)@ == edit_at(
            old(root)@,
            path_view(path@),
            0,
            Edit::Put(object_view(fields@)),
        ),
{
    put_from(root, path, 0, fields);
}

/// Puts the members of `fields` into the object that the keys of `path` lead
/// to, from index `i` on.
fn put_from(root: &mut JsonValue, path: &Vec<&str>, i: usize, fields: Vec<(String, JsonValue)>)
    requires
        i <= path.len(),
    ensures
        final(root)@ == edit_at(
            old(root)@,
            path_view(path@),
            i as int,
            Edit::Put(object_view(fields@)),
        ),
    decreases path.len() - i,
{
    match root {
        JsonValue::Object(t) => {
            if i < path.len() {
                match find_member(t, path[i]) {
                    Some(j) => {
                        let ghost before = object_view(t@);
                        let slot: &mut (String, JsonValue) = &mut t[j];
                        put_from(&mut slot.1, path, i + 1, fields);
                        assert(object_view(t@) =~= before.update(
                            j as int,
                            (
                                before[j as int].0,
                                edit_at(
                                    before[j as int].1,
                                    path_view(path@),
                                    i + 1,
                                    Edit::Put(object_view(fields@)),
                                ),
                            ),
                        ));
                    },
                    None => {},
                }
            } else {
                put_fields(t, fields);
            }
        },
        _ => {},
    }
}

/// Takes the members whose keys are `keys` out of the object that the keys of
/// `path` lead to. Where they lead to none, nothing changes.
pub fn drop_at(root: &mut JsonValue, path: &Vec<&str>, keys: &Vec<String>)
    ensures
        final(root)@ == edit_at(
            old(root)@,
            path_view(path@),
            0,
            Edit::Drop(keys_view(keys@)),
        ),
{
    drop_from(root, path, 0, keys);
}

/// Takes the members whose keys are `keys` out of the object that the keys of
/// `path` lead to, from index `i` on.
fn drop_from(root: &mut JsonValue, path: &Vec<&str>, i: usize, keys: &Vec<String>)
    requires
        i <= path.len(),
    ensures
        final(root)@ == edit_at(
            old(root)@,
            path_view(path@),
            i as int,
            Edit::Drop(keys_view(keys@)),
        ),
    decreases path.len() - i,
{
    match root {
        JsonValue::Object(t) => {
            if i < path.len() {
                match find_member(t, path[i]) {
                    Some(j) => {
                        let ghost before = object_view(t@);
                        let slot: &mut (String, JsonValue) = &mut t[j];
                        drop_from(&mut slot.1, path, i + 1, keys);
                        assert(object_view(t@) =~= before.update(
                            j as int,
                            (
                                before[j as int].0,
                                edit_at(
                                    before[j as int].1,
                                    path_view(path@),
                                    i + 1,
                                    Edit::Drop(keys_view(keys@)),
                                ),
                            ),
                        ));
                    },
                    None => {},
                }
            } else {
                drop_fields(t, keys);
            }
        },
        _ => {},
    }
}

/// The path of no key: the root itself.
pub fn path0() -> (p: Vec<&'static str>)
    ensures
        path_view(p@) == Seq::<Seq<char>>::empty(),
{
    let p: Vec<&'static str> = Vec::new();
    assert(path_view(p@) =~= Seq::<Seq<char>>::empty());
    p
}

/// The path of one key.
pub fn path1<'a>(a: &'a str) -> (p: Vec<&'a str>)
    ensures
        path_view(p@) == seq![a@],
{
    let mut p: Vec<&'a str> = Vec::new();
    p.push(a);
    assert(path_view(p@) =~= seq![a@]);
    p
}

/// The path of two keys.
pub fn path2<'a>(a: &'a str, b: &'a str) -> (p: Vec<&'a str>)
    ensures
        path_view(p@) == seq![a@, b@],
{
    let mut p: Vec<&'a str> = Vec::new();
    p.push(a);
    p.push(b);
    assert(path_view(p@) =~= seq![a@, b@]);
    p
}

} // verus!
