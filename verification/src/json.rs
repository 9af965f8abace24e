//! JSON values, and the bridge to `serde_json`'s text format.

use serde_json::{Number, Value};
use vstd::prelude::*;

use crate::text::same_text;

verus! {

/// `serde_json::Number`: a JSON number, carried through unread.
#[verifier::external_type_specification]
#[verifier::external_body]
pub struct ExNumber(serde_json::Number);

/// `serde_json::Value`: a JSON value in the representation of `serde_json`.
#[verifier::external_type_specification]
#[verifier::external_body]
pub struct ExValue(serde_json::Value);

/// A JSON value. Where an object lists a key twice, the later entry counts.
pub enum Json {
    Null,
    Bool(bool),
    Number(Number),
    Str(String),
    Array(Vec<Json>),
    Object(Vec<(String, Json)>),
}

/// The mathematical content of a JSON value.
#[verifier::ext_equal]
pub enum JsonView {
    Null,
    Bool(bool),
    Number(Number),
    Str(Seq<char>),
    Array(Seq<JsonView>),
    Object(Map<Seq<char>, JsonView>),
}

impl Json {
    pub open spec fn view(&self) -> JsonView
        decreases self,
    {
        match self {
            Json::Null => JsonView::Null,
            Json::Bool(b) => JsonView::Bool(*b),
            Json::Number(n) => JsonView::Number(*n),
            Json::Str(s) => JsonView::Str(s@),
            Json::Array(v) => JsonView::Array(array_view(v@)),
            Json::Object(v) => JsonView::Object(object_view(v@)),
        }
    }
}

/// The contents of a list of JSON values.
pub open spec fn array_view(s: Seq<Json>) -> Seq<JsonView>
    decreases s,
{
    if s.len() == 0 {
        Seq::empty()
    } else {
        array_view(s.drop_last()).push(s.last().view())
    }
}

/// The contents of an object given by its entries.
pub open spec fn object_view(s: Seq<(String, Json)>) -> Map<Seq<char>, JsonView>
    decreases s,
{
    if s.len() == 0 {
        Map::empty()
    } else {
        object_view(s.drop_last()).insert(s.last().0@, s.last().1.view())
    }
}

/// The value of the field `key`, where `v` is an object that has it.
pub open spec fn field(v: JsonView, key: Seq<char>) -> Option<JsonView> {
    match v {
        JsonView::Object(m) => if m.contains_key(key) {
            Some(m[key])
        } else {
            None
        },
        _ => None,
    }
}

/// The text of a JSON string.
pub open spec fn str_of(v: JsonView) -> Option<Seq<char>> {
    match v {
        JsonView::Str(s) => Some(s),
        _ => None,
    }
}

/// The value of a JSON number that is an integer from 0 to `u64::MAX`.
pub open spec fn u64_of(v: JsonView) -> Option<u64> {
    match v {
        JsonView::Number(n) => number_u64(n),
        _ => None,
    }
}

/// The value of a JSON boolean.
pub open spec fn bool_of(v: JsonView) -> Option<bool> {
    match v {
        JsonView::Bool(b) => Some(b),
        _ => None,
    }
}

/// The elements of a JSON array.
pub open spec fn array_of(v: JsonView) -> Option<Seq<JsonView>> {
    match v {
        JsonView::Array(a) => Some(a),
        _ => None,
    }
}

/// The text of the field `key`, where it is a string.
pub open spec fn str_field(v: JsonView, key: Seq<char>) -> Option<Seq<char>> {
    match field(v, key) {
        Some(f) => str_of(f),
        None => None,
    }
}

/// The array view is element by element.
pub proof fn lemma_array_view(s: Seq<Json>)
    ensures
        array_view(s).len() == s.len(),
        forall|i: int| 0 <= i < s.len() ==> #[trigger] array_view(s)[i] == s[i].view(),
    decreases s.len(),
{
    if s.len() > 0 {
        lemma_array_view(s.drop_last());
    }
}

/// A key that no entry has is not in the object.
pub proof fn lemma_absent_key(s: Seq<(String, Json)>, key: Seq<char>)
    requires
        forall|i: int| 0 <= i < s.len() ==> (#[trigger] s[i]).0@ != key,
    ensures
        !object_view(s).contains_key(key),
    decreases s.len(),
{
    if s.len() > 0 {
        assert(s.last() == s[s.len() - 1]);
        assert forall|i: int| 0 <= i < s.drop_last().len() implies (#[trigger] s.drop_last()[i]).0@
            != key by {
            assert(s.drop_last()[i] == s[i]);
        }
        lemma_absent_key(s.drop_last(), key);
    }
}

/// The last entry with a key gives the value of that key.
pub proof fn lemma_last_key(s: Seq<(String, Json)>, at: int)
    requires
        0 <= at < s.len(),
        forall|i: int| at < i < s.len() ==> (#[trigger] s[i]).0@ != s[at].0@,
    ensures
        object_view(s).contains_key(s[at].0@),
        object_view(s)[s[at].0@] == s[at].1.view(),
    decreases s.len(),
{
    if at < s.len() - 1 {
        assert(s.last() == s[s.len() - 1]);
        assert forall|i: int| at < i < s.drop_last().len() implies (#[trigger] s.drop_last()[i]).0@
            != s.drop_last()[at].0@ by {
            assert(s.drop_last()[i] == s[i]);
        }
        lemma_last_key(s.drop_last(), at);
    }
}

/// The index of the last entry with the given key.
pub fn find_field(fields: &Vec<(String, Json)>, key: &str) -> (r: Option<usize>)
    ensures
        match r {
            Some(i) => i < fields@.len() && fields@[i as int].0@ == key@ && object_view(
                fields@,
            ).contains_key(key@) && object_view(fields@)[key@] == fields@[i as int].1@,
            None => !object_view(fields@).contains_key(key@),
        },
{
    let mut i: usize = fields.len();
    while i > 0
        invariant
            i <= fields@.len(),
            forall|j: int| i <= j < fields@.len() ==> (#[trigger] fields@[j]).0@ != key@,
        decreases i,
    {
        i -= 1;
        if same_text(fields[i].0.as_str(), key) {
            proof {
                lemma_last_key(fields@, i as int);
            }
            return Some(i);
        }
    }
    proof {
        lemma_absent_key(fields@, key@);
    }
    None
}

/// Without one entry, the object has the same values for all other keys.
proof fn lemma_remove_entry(s: Seq<(String, Json)>, at: int)
    requires
        0 <= at < s.len(),
    ensures
        object_view(s.remove(at)).remove(s[at].0@) == object_view(s).remove(s[at].0@),
    decreases s.len(),
{
    let key = s[at].0@;
    if at == s.len() - 1 {
        assert(s.remove(at) =~= s.drop_last());
        assert(object_view(s.remove(at)).remove(key) =~= object_view(s).remove(key));
    } else {
        lemma_remove_entry(s.drop_last(), at);
        let t = s.remove(at);
        assert(t.drop_last() =~= s.drop_last().remove(at));
        assert(t.last() == s.last());
        let a = object_view(t.drop_last());
        let b = object_view(s.drop_last());
        assert(a.remove(key) == b.remove(key));
        let k = s.last().0@;
        let v = s.last().1@;
        let x = a.insert(k, v).remove(key);
        let y = b.insert(k, v).remove(key);
        assert forall|q: Seq<char>| #[trigger] x.dom().contains(q) == y.dom().contains(q) by {
            if q != key && q != k {
                assert(a.remove(key).dom().contains(q) == b.remove(key).dom().contains(q));
            }
        }
        assert forall|q: Seq<char>| #[trigger] x.dom().contains(q) implies x[q] == y[q] by {
            if q != k {
                assert(a.remove(key)[q] == b.remove(key)[q]);
            }
        }
        assert(x =~= y);
    }
}

/// Takes a key out of the entries of an object, and gives its value.
pub fn take_field(fields: &mut Vec<(String, Json)>, key: &str) -> (r: Option<Json>)
    ensures
        match r {
            Some(j) => object_view(old(fields)@).contains_key(key@) && object_view(
                old(fields)@,
            )[key@] == j@,
            None => !object_view(old(fields)@).contains_key(key@),
        },
        object_view(final(fields)@) == object_view(old(fields)@).remove(key@),
{
    let ghost start = object_view(fields@);
    match find_field(fields, key) {
        None => {
            assert(start.remove(key@) =~= start);
            None
        },
        Some(at) => {
            proof {
                lemma_remove_entry(fields@, at as int);
            }
            let (_, value) = fields.remove(at);
            loop
                invariant
                    object_view(fields@).remove(key@) == start.remove(key@),
                ensures
                    object_view(fields@) == start.remove(key@),
                decreases fields@.len(),
            {
                match find_field(fields, key) {
                    None => {
                        assert(object_view(fields@).remove(key@) =~= object_view(fields@));
                        break ;
                    },
                    Some(i) => {
                        proof {
                            lemma_remove_entry(fields@, i as int);
                        }
                        fields.remove(i);
                    },
                }
            }
            Some(value)
        },
    }
}

/// Appends an entry to the entries of an object.
pub fn put(fields: &mut Vec<(String, Json)>, key: &str, value: Json)
    ensures
        object_view(final(fields)@) == object_view(old(fields)@).insert(key@, value@),
{
    let ghost before = fields@;
    fields.push((key.to_string(), value));
    assert(fields@.drop_last() == before);
}

/// Appends an element to an array.
pub fn append_item(items: &mut Vec<Json>, value: Json)
    ensures
        array_view(final(items)@) == array_view(old(items)@).push(value@),
{
    let ghost before = items@;
    items.push(value);
    assert(items@.drop_last() == before);
}

/// A JSON string.
pub fn json_str(s: &str) -> (r: Json)
    ensures
        r@ == JsonView::Str(s@),
{
    Json::Str(s.to_string())
}

/// The object with one field.
pub open spec fn object1(k: Seq<char>, v: JsonView) -> JsonView {
    JsonView::Object(Map::empty().insert(k, v))
}

/// The object with two fields.
pub open spec fn object2(k1: Seq<char>, v1: JsonView, k2: Seq<char>, v2: JsonView) -> JsonView {
    JsonView::Object(Map::empty().insert(k1, v1).insert(k2, v2))
}

/// The object with three fields.
pub open spec fn object3(
    k1: Seq<char>,
    v1: JsonView,
    k2: Seq<char>,
    v2: JsonView,
    k3: Seq<char>,
    v3: JsonView,
) -> JsonView {
    JsonView::Object(Map::empty().insert(k1, v1).insert(k2, v2).insert(k3, v3))
}

/// Makes an object with one field.
pub fn new_object1(k: &str, v: Json) -> (r: Json)
    ensures
        r@ == object1(k@, v@),
{
    let mut fields: Vec<(String, Json)> = Vec::new();
    put(&mut fields, k, v);
    Json::Object(fields)
}

/// Makes an object with two fields.
pub fn new_object2(k1: &str, v1: Json, k2: &str, v2: Json) -> (r: Json)
    ensures
        r@ == object2(k1@, v1@, k2@, v2@),
{
    let mut fields: Vec<(String, Json)> = Vec::new();
    put(&mut fields, k1, v1);
    put(&mut fields, k2, v2);
    Json::Object(fields)
}

/// Makes an object with three fields.
pub fn new_object3(k1: &str, v1: Json, k2: &str, v2: Json, k3: &str, v3: Json) -> (r: Json)
    ensures
        r@ == object3(k1@, v1@, k2@, v2@, k3@, v3@),
{
    let mut fields: Vec<(String, Json)> = Vec::new();
    put(&mut fields, k1, v1);
    put(&mut fields, k2, v2);
    put(&mut fields, k3, v3);
    Json::Object(fields)
}

/// Makes an array with one item.
pub fn new_array1(v: Json) -> (r: Json)
    ensures
        r@ == JsonView::Array(seq![v@]),
{
    let mut items: Vec<Json> = Vec::new();
    append_item(&mut items, v);
    assert(array_view(items@) =~= seq![v@]);
    Json::Array(items)
}

impl Json {
    /// The value of the field `key`, where this is an object that has it.
    pub fn get(&self, key: &str) -> (r: Option<&Json>)
        ensures
            match r {
                Some(j) => field(self@, key@) == Some(j@),
                None => field(self@, key@) is None,
            },
    {
        match self {
            Json::Object(fields) => {
                match find_field(fields, key) {
                    Some(i) => Some(&fields[i].1),
                    None => None,
                }
            },
            _ => None,
        }
    }

    /// The text of a string.
    pub fn as_str(&self) -> (r: Option<&str>)
        ensures
            match r {
                Some(s) => str_of(self@) == Some(s@),
                None => str_of(self@) is None,
            },
    {
        match self {
            Json::Str(s) => Some(s.as_str()),
            _ => None,
        }
    }

    /// The value of an integer from 0 to `u64::MAX`.
    pub fn as_u64(&self) -> (r: Option<u64>)
        ensures
            r == u64_of(self@),
    {
        match self {
            Json::Number(n) => n.as_u64(),
            _ => None,
        }
    }

    /// The value of a boolean.
    pub fn as_bool(&self) -> (r: Option<bool>)
        ensures
            r == bool_of(self@),
    {
        match self {
            Json::Bool(b) => Some(*b),
            _ => None,
        }
    }

    /// The text of the field `key`, where it is a string.
    pub fn get_str(&self, key: &str) -> (r: Option<&str>)
        ensures
            match r {
                Some(s) => str_field(self@, key@) == Some(s@),
                None => str_field(self@, key@) is None,
            },
    {
        match self.get(key) {
            Some(f) => f.as_str(),
            None => None,
        }
    }

    /// The value of the field `key`, moved out.
    pub fn take(self, key: &str) -> (r: Option<Json>)
        ensures
            match r {
                Some(j) => field(self@, key@) == Some(j@),
                None => field(self@, key@) is None,
            },
    {
        match self {
            Json::Object(fields) => {
                let mut rest = fields;
                match find_field(&rest, key) {
                    Some(i) => Some(rest.swap_remove(i).1),
                    None => None,
                }
            },
            _ => None,
        }
    }
}

/// The integer from 0 to `u64::MAX` that a number is; nothing for a negative
/// number or one that was written with a fraction or an exponent.
pub uninterp spec fn number_u64(n: Number) -> Option<u64>;

/// `serde_json::Number::as_u64`: the number as a `u64`, where it is one.
pub assume_specification[ serde_json::Number::as_u64 ](n: &Number) -> (r: Option<u64>)
    ensures
        r == number_u64(*n),
;

/// The JSON number that stands for an integer.
pub uninterp spec fn number_of_int(i: i64) -> Number;

/// `serde_json::Number::from` on an `i64`: the number that stands for it, which
/// reads back as a `u64` where it is not negative.
#[verifier::external_body]
pub(crate) fn number_from_int(i: i64) -> (r: Number)
    ensures
        r == number_of_int(i),
        number_u64(r) == (if i >= 0 {
            Some(i as u64)
        } else {
            None
        }),
{
    Number::from(i)
}

/// A JSON integer.
pub fn json_int(i: i64) -> (r: Json)
    ensures
        r@ == JsonView::Number(number_of_int(i)),
{
    Json::Number(number_from_int(i))
}

/// One level of a JSON value of `serde_json`.
pub enum ValueNode {
    Null,
    Bool(bool),
    Number(Number),
    Str(String),
    Array(Vec<Value>),
    Object(Vec<(String, Value)>),
}

/// What a value of `serde_json` holds.
pub uninterp spec fn json_of(v: Value) -> JsonView;

/// What the entries of an object hold.
pub open spec fn entries_of(s: Seq<(String, Value)>) -> Map<Seq<char>, JsonView>
    decreases s.len(),
{
    if s.len() == 0 {
        Map::empty()
    } else {
        entries_of(s.drop_last()).insert(s.last().0@, json_of(s.last().1))
    }
}

impl ValueNode {
    pub open spec fn view(&self) -> JsonView {
        match self {
            ValueNode::Null => JsonView::Null,
            ValueNode::Bool(b) => JsonView::Bool(*b),
            ValueNode::Number(n) => JsonView::Number(*n),
            ValueNode::Str(s) => JsonView::Str(s@),
            ValueNode::Array(v) => JsonView::Array(v@.map_values(|x: Value| json_of(x))),
            ValueNode::Object(v) => JsonView::Object(entries_of(v@)),
        }
    }

    /// No two entries of an object have the same key.
    pub open spec fn keys_distinct(&self) -> bool {
        match self {
            ValueNode::Object(v) => forall|i: int, j: int|
                0 <= i < j < v@.len() ==> (#[trigger] v@[i]).0@ != (#[trigger] v@[j]).0@,
            _ => true,
        }
    }
}

/// Takes one level off a `serde_json::Value`: which variant it is, and what the
/// variant holds. An object of `serde_json::Map` has no key twice.
#[verifier::external_body]
pub(crate) fn open_value(v: Value) -> (r: ValueNode)
    ensures
        r@ == json_of(v),
        r.keys_distinct(),
{
    match v {
        Value::Null => ValueNode::Null,
        Value::Bool(b) => ValueNode::Bool(b),
        Value::Number(n) => ValueNode::Number(n),
        Value::String(s) => ValueNode::Str(s),
        Value::Array(a) => ValueNode::Array(a),
        Value::Object(m) => ValueNode::Object(m.into_iter().collect()),
    }
}

/// Makes the `serde_json::Value` with the given content on its first level.
#[verifier::external_body]
pub(crate) fn close_value(n: ValueNode) -> (r: Value)
    requires
        n.keys_distinct(),
    ensures
        json_of(r) == n@,
{
    match n {
        ValueNode::Null => Value::Null,
        ValueNode::Bool(b) => Value::Bool(b),
        ValueNode::Number(n) => Value::Number(n),
        ValueNode::Str(s) => Value::String(s),
        ValueNode::Array(a) => Value::Array(a),
        ValueNode::Object(o) => Value::Object(o.into_iter().collect()),
    }
}

/// An entry whose key no later entry has gives the value of that key; the
/// object has finitely many keys.
proof fn lemma_entry(s: Seq<(String, Value)>, at: int)
    requires
        0 <= at < s.len(),
        forall|i: int| at < i < s.len() ==> (#[trigger] s[i]).0@ != s[at].0@,
    ensures
        entries_of(s).contains_key(s[at].0@),
        entries_of(s)[s[at].0@] == json_of(s[at].1),
    decreases s.len(),
{
    if at < s.len() - 1 {
        assert(s.last() == s[s.len() - 1]);
        assert forall|i: int| at < i < s.drop_last().len() implies (#[trigger] s.drop_last()[i]).0@
            != s.drop_last()[at].0@ by {
            assert(s.drop_last()[i] == s[i]);
        }
        lemma_entry(s.drop_last(), at);
    }
}

proof fn lemma_entries_finite(s: Seq<(String, Value)>)
    ensures
        entries_of(s).dom().finite(),
    decreases s.len(),
{
    if s.len() > 0 {
        lemma_entries_finite(s.drop_last());
    }
}

/// The library's form of a JSON value of `serde_json`.
pub fn from_value(v: Value) -> (r: Json)
    ensures
        r@ == json_of(v),
    decreases json_of(v),
{
    let ghost whole = json_of(v);
    match open_value(v) {
        ValueNode::Null => Json::Null,
        ValueNode::Bool(b) => Json::Bool(b),
        ValueNode::Number(n) => Json::Number(n),
        ValueNode::Str(s) => Json::Str(s),
        ValueNode::Array(items) => {
            let mut out: Vec<Json> = Vec::new();
            let ghost all = items@;
            let ghost seen = all.map_values(|x: Value| json_of(x));
            for x in it: items
                invariant
                    it.seq() == all,
                    whole == json_of(v),
                    whole == JsonView::Array(seen),
                    seen == all.map_values(|x: Value| json_of(x)),
                    array_view(out@) == seen.take(it.index() as int),
            {
                assert(seen[it.index() as int] == json_of(x));
                assert(decreases_to!(whole => whole->Array_0));
                assert(decreases_to!(seen => seen[it.index() as int]));
                let j = from_value(x);
                append_item(&mut out, j);
                assert(seen.take(it.index() + 1) == seen.take(it.index() as int).push(j@));
            }
            assert(seen.take(all.len() as int) == seen);
            Json::Array(out)
        },
        ValueNode::Object(entries) => {
            let mut out: Vec<(String, Json)> = Vec::new();
            let ghost all = entries@;
            for e in it: entries
                invariant
                    it.seq() == all,
                    whole == json_of(v),
                    whole == JsonView::Object(entries_of(all)),
                    forall|i: int, j: int|
                        0 <= i < j < all.len() ==> (#[trigger] all[i]).0@ != (#[trigger] all[j]).0@,
                    object_view(out@) == entries_of(all.take(it.index() as int)),
            {
                let ghost at = it.index() as int;
                proof {
                    lemma_entry(all, at);
                    lemma_entries_finite(all);
                    vstd::map::axiom_map_index_decreases_finite(entries_of(all), all[at].0@);
                    assert(decreases_to!(whole => whole->Object_0));
                }
                let (k, x) = e;
                let j = from_value(x);
                put(&mut out, k.as_str(), j);
                assert(all.take(at + 1).drop_last() == all.take(at));
            }
            assert(all.take(all.len() as int) == all);
            Json::Object(out)
        },
    }
}

proof fn lemma_absent_entry(s: Seq<(String, Value)>, key: Seq<char>)
    requires
        forall|i: int| 0 <= i < s.len() ==> (#[trigger] s[i]).0@ != key,
    ensures
        !entries_of(s).contains_key(key),
    decreases s.len(),
{
    if s.len() > 0 {
        assert(s.last() == s[s.len() - 1]);
        assert forall|i: int| 0 <= i < s.drop_last().len() implies (#[trigger] s.drop_last()[i]).0@
            != key by {
            assert(s.drop_last()[i] == s[i]);
        }
        lemma_absent_entry(s.drop_last(), key);
    }
}

/// Whether one of the entries, whose keys are distinct, has the given key.
fn has_entry(entries: &Vec<(String, Value)>, key: &str) -> (r: bool)
    requires
        forall|i: int, j: int|
            0 <= i < j < entries@.len() ==> (#[trigger] entries@[i]).0@ != (
            #[trigger] entries@[j]).0@,
    ensures
        r == entries_of(entries@).contains_key(key@),
        !r ==> forall|i: int| 0 <= i < entries@.len() ==> (#[trigger] entries@[i]).0@ != key@,
{
    let mut i: usize = 0;
    while i < entries.len()
        invariant
            i <= entries@.len(),
            forall|j: int| 0 <= j < i ==> (#[trigger] entries@[j]).0@ != key@,
            forall|i: int, j: int|
                0 <= i < j < entries@.len() ==> (#[trigger] entries@[i]).0@ != (
                #[trigger] entries@[j]).0@,
        decreases entries@.len() - i,
    {
        if same_text(entries[i].0.as_str(), key) {
            proof {
                lemma_entry(entries@, i as int);
            }
            return true;
        }
        i += 1;
    }
    proof {
        lemma_absent_entry(entries@, key@);
    }
    false
}

/// The `serde_json` form of a JSON value.
pub fn to_value(j: Json) -> (r: Value)
    ensures
        json_of(r) == j@,
    decreases j,
{
    match j {
        Json::Null => close_value(ValueNode::Null),
        Json::Bool(b) => close_value(ValueNode::Bool(b)),
        Json::Number(n) => close_value(ValueNode::Number(n)),
        Json::Str(s) => close_value(ValueNode::Str(s)),
        Json::Array(items) => {
            let mut out: Vec<Value> = Vec::new();
            let ghost all = items@;
            for x in it: items
                invariant
                    it.seq() == all,
                    j matches Json::Array(v) && v@ == all,
                    out@.len() == it.index(),
                    forall|i: int| 0 <= i < it.index() ==> json_of(#[trigger] out@[i]) == all[i]@,
            {
                assert(decreases_to!(j => j->Array_0@));
                assert(decreases_to!(all => all[it.index() as int]));
                out.push(to_value(x));
            }
            proof {
                lemma_array_view(all);
                assert(out@.map_values(|x: Value| json_of(x)) =~= array_view(all));
            }
            close_value(ValueNode::Array(out))
        },
        Json::Object(fields) => {
            let mut rest = fields;
            let mut out: Vec<(String, Value)> = Vec::new();
            let ghost all = fields@;
            assert(object_view(all) =~= object_view(all).union_prefer_right(entries_of(out@)));
            while rest.len() > 0
                invariant
                    j matches Json::Object(v) && v@ == all,
                    rest@.len() <= all.len(),
                    rest@ == all.take(rest@.len() as int),
                    forall|i: int, j: int|
                        0 <= i < j < out@.len() ==> (#[trigger] out@[i]).0@ != (
                        #[trigger] out@[j]).0@,
                    object_view(all) == object_view(rest@).union_prefer_right(entries_of(out@)),
                decreases rest@.len(),
            {
                let ghost before = rest@;
                let ghost known = entries_of(out@);
                match rest.pop() {
                    Some((k, x)) => {
                        let ghost at = rest@.len() as int;
                        assert(before.last() == all[at]);
                        assert(before.drop_last() == rest@);
                        assert(rest@ == all.take(at));
                        if has_entry(&out, k.as_str()) {
                            assert(object_view(rest@).insert(k@, x@).union_prefer_right(known)
                                =~= object_view(rest@).union_prefer_right(known));
                        } else {
                            assert(decreases_to!(j => j->Object_0@));
                            assert(decreases_to!(all => all[at]));
                            assert(decreases_to!(all[at] => all[at].1));
                            let ghost old_out = out@;
                            let ghost xv = x@;
                            let y = to_value(x);
                            let ghost kv = k@;
                            out.push((k, y));
                            assert(out@.drop_last() == old_out);
                            assert(object_view(rest@).insert(kv, xv).union_prefer_right(known)
                                =~= object_view(rest@).union_prefer_right(known.insert(kv, xv)));
                        }
                    },
                    None => {},
                }
            }
            assert(object_view(rest@).union_prefer_right(entries_of(out@)) =~= entries_of(out@));
            close_value(ValueNode::Object(out))
        },
    }
}

/// What reading a JSON text yields: the value it stands for, or the message that
/// says what is wrong with it.
pub uninterp spec fn parsed_text(text: Seq<char>) -> Result<JsonView, Seq<char>>;

/// `serde_json::from_str` into a `serde_json::Value`; an error is given by its
/// message.
#[verifier::external_body]
fn value_from_str(text: &str) -> (r: Result<Value, String>)
    ensures
        match r {
            Ok(v) => parsed_text(text@) == Ok::<JsonView, Seq<char>>(json_of(v)),
            Err(e) => parsed_text(text@) == Err::<JsonView, Seq<char>>(e@),
        },
{
    serde_json::from_str::<Value>(text).map_err(|e| e.to_string())
}

/// Reads a JSON text.
pub fn parse(text: &str) -> (r: Result<Json, String>)
    ensures
        match r {
            Ok(j) => parsed_text(text@) == Ok::<JsonView, Seq<char>>(j@),
            Err(e) => parsed_text(text@) == Err::<JsonView, Seq<char>>(e@),
        },
{
    match value_from_str(text) {
        Ok(v) => Ok(from_value(v)),
        Err(e) => Err(e),
    }
}

/// A JSON value written on one line, or nothing where it cannot be written.
pub uninterp spec fn compact_text(j: JsonView) -> Option<Seq<char>>;

/// `serde_json::to_string` of a `serde_json::Value`. It sets nothing between the
/// parts of the value but the punctuation, and escapes the control characters in
/// strings, so the text is one line.
#[verifier::external_body]
fn value_to_string(v: &Value) -> (r: Option<String>)
    ensures
        match r {
            Some(s) => compact_text(json_of(*v)) == Some(s@) && !s@.contains('\n'),
            None => compact_text(json_of(*v)) is None,
        },
{
    serde_json::to_string(v).ok()
}

/// Writes a JSON value on one line; the empty string where it cannot be written.
pub fn compact(j: Json) -> (r: String)
    ensures
        r@ == (match compact_text(j@) {
            Some(s) => s,
            None => Seq::<char>::empty(),
        }),
        !r@.contains('\n'),
{
    let v = to_value(j);
    match value_to_string(&v) {
        Some(s) => s,
        None => String::new(),
    }
}

/// A JSON value written over several indented lines, or the message that says
/// why it cannot be written.
pub uninterp spec fn pretty_text(j: JsonView) -> Result<Seq<char>, Seq<char>>;

/// `serde_json::to_string_pretty` of a `serde_json::Value`; an error is given by
/// its message.
#[verifier::external_body]
fn value_to_string_pretty(v: &Value) -> (r: Result<String, String>)
    ensures
        match r {
            Ok(s) => pretty_text(json_of(*v)) == Ok::<Seq<char>, Seq<char>>(s@),
            Err(e) => pretty_text(json_of(*v)) == Err::<Seq<char>, Seq<char>>(e@),
        },
{
    serde_json::to_string_pretty(v).map_err(|e| e.to_string())
}

/// Writes a JSON value over several indented lines.
pub fn pretty(j: Json) -> (r: Result<String, String>)
    ensures
        match r {
            Ok(s) => pretty_text(j@) == Ok::<Seq<char>, Seq<char>>(s@),
            Err(e) => pretty_text(j@) == Err::<Seq<char>, Seq<char>>(e@),
        },
{
    let v = to_value(j);
    value_to_string_pretty(&v)
}

// ---- laws ----

/// The view of a list goes item by item, and that of an object entry by entry: a later entry
/// stands in the place of an earlier one with the same key.
pub proof fn law_views_by_entry(
    items: Seq<Json>,
    item: Json,
    fields: Seq<(String, Json)>,
    f: (String, Json),
)
    ensures
        array_view(Seq::empty()) == Seq::<JsonView>::empty(),
        array_view(items.push(item)) == array_view(items).push(item@),
        object_view(Seq::empty()) == Map::<Seq<char>, JsonView>::empty(),
        object_view(fields.push(f)) == object_view(fields).insert(f.0@, f.1@),
{
    assert(items.push(item).drop_last() =~= items);
    assert(fields.push(f).drop_last() =~= fields);
}

/// An object has the fields that it was made with; nothing else has any.
pub proof fn law_fields(m: Map<Seq<char>, JsonView>, key: Seq<char>, v: JsonView)
    ensures
        field(JsonView::Object(m.insert(key, v)), key) == Some(v),
        field(JsonView::Object(m.remove(key)), key) is None,
        !(v is Object) ==> field(v, key) is None,
        str_field(JsonView::Object(m.insert(key, v)), key) == str_of(v),
        str_field(JsonView::Object(m.remove(key)), key) is None,
{
}

/// A value gives what it holds to one that asks for its kind, and nothing to any other.
pub proof fn law_values_by_kind(v: JsonView, s: Seq<char>, b: bool, a: Seq<JsonView>)
    ensures
        str_of(v) == Some(s) <==> v == JsonView::Str(s),
        bool_of(v) == Some(b) <==> v == JsonView::Bool(b),
        array_of(v) == Some(a) <==> v == JsonView::Array(a),
        u64_of(v) is Some ==> v is Number,
        v matches JsonView::Number(n) ==> u64_of(v) == number_u64(n),
{
}

} // verus!
