//! JSON values as the library reads them.
//!
//! Text is parsed by `serde_json`; the parsed tree is handed to the library as a
//! [`JsonValue`], whose objects keep their members in the order in which the
//! parser's map yields them. The lookups below are what `serde_json::Value`
//! offers (`get`, `as_str`, `as_u64`, ...), each with its meaning as a spec
//! function.
use vstd::prelude::*;

use serde_json::Value as V;

verus! {

/// A JSON number: a non-negative integer, a negative integer, or any other
/// number, kept as the text that `serde_json` prints for it.
#[derive(Debug, Clone, PartialEq)]
pub enum JsonNumber {
    PosInt(u64),
    NegInt(i64),
    Float(String),
}

/// A parsed JSON value.
#[derive(Debug, PartialEq)]
pub enum JsonValue {
    Null,
    Bool(bool),
    Number(JsonNumber),
    Str(String),
    Array(Vec<JsonValue>),
    Object(Vec<(String, JsonValue)>),
}

/// An optional reference, read as an optional value.
pub open spec fn opt_deref(r: Option<&JsonValue>) -> Option<JsonValue> {
    match r {
        Some(v) => Some(*v),
        None => None,
    }
}

/// Index of the first member at or after `i` whose key is `key`.
pub open spec fn lookup_from(es: Seq<(String, JsonValue)>, key: Seq<char>, i: int) -> Option<int>
    decreases es.len() - i,
{
    if i < 0 || i >= es.len() {
        None
    } else if es[i].0@ == key {
        Some(i)
    } else {
        lookup_from(es, key, i + 1)
    }
}

pub proof fn lemma_lookup_from_bounds(es: Seq<(String, JsonValue)>, key: Seq<char>, i: int)
    ensures
        lookup_from(es, key, i) matches Some(j) ==> i <= j < es.len() && es[j].0@ == key,
    decreases es.len() - i,
{
    if !(i < 0 || i >= es.len()) && es[i].0@ != key {
        lemma_lookup_from_bounds(es, key, i + 1);
    }
}

/// `Value::get(key)`: the member of an object with that key.
pub open spec fn json_get(v: JsonValue, key: Seq<char>) -> Option<JsonValue> {
    match v {
        JsonValue::Object(es) => match lookup_from(es@, key, 0) {
            Some(i) => Some(es@[i].1),
            None => None,
        },
        _ => None,
    }
}

/// `Value::get(i)`: the element of an array at that index.
pub open spec fn json_at(v: JsonValue, i: int) -> Option<JsonValue> {
    match v {
        JsonValue::Array(a) => if 0 <= i < a@.len() {
            Some(a@[i])
        } else {
            None
        },
        _ => None,
    }
}

/// `Value::as_str`.
pub open spec fn json_str(v: JsonValue) -> Option<Seq<char>> {
    match v {
        JsonValue::Str(s) => Some(s@),
        _ => None,
    }
}

/// `Value::as_u64`: only a non-negative integer has one.
pub open spec fn json_u64(v: JsonValue) -> Option<u64> {
    match v {
        JsonValue::Number(JsonNumber::PosInt(n)) => Some(n),
        _ => None,
    }
}

/// `Value::as_array`.
pub open spec fn json_items(v: JsonValue) -> Option<Seq<JsonValue>> {
    match v {
        JsonValue::Array(a) => Some(a@),
        _ => None,
    }
}

/// The value reached by following object keys one after another (what
/// `Value::pointer` does for a path of keys).
pub open spec fn json_path(v: JsonValue, keys: Seq<Seq<char>>) -> Option<JsonValue>
    decreases keys.len(),
{
    if keys.len() == 0 {
        Some(v)
    } else {
        match json_get(v, keys[0]) {
            Some(n) => json_path(n, keys.drop_first()),
            None => None,
        }
    }
}

/// A looked-up value's string, if both are there.
pub open spec fn opt_str(o: Option<JsonValue>) -> Option<Seq<char>> {
    match o {
        Some(v) => json_str(v),
        None => None,
    }
}

/// A looked-up value's `u64`, if both are there.
pub open spec fn opt_u64(o: Option<JsonValue>) -> Option<u64> {
    match o {
        Some(v) => json_u64(v),
        None => None,
    }
}

/// A looked-up value's member, if both are there.
pub open spec fn opt_get(o: Option<JsonValue>, key: Seq<char>) -> Option<JsonValue> {
    match o {
        Some(v) => json_get(v, key),
        None => None,
    }
}

/// The keys of a path, as character sequences.
pub open spec fn keys_view(keys: Seq<&str>) -> Seq<Seq<char>> {
    Seq::new(keys.len(), |i: int| keys[i]@)
}

fn lookup<'a>(es: &'a Vec<(String, JsonValue)>, key: &str) -> (r: Option<&'a JsonValue>)
    ensures
        opt_deref(r) == match lookup_from(es@, key@, 0) {
            Some(i) => Some(es@[i].1),
            None => None::<JsonValue>,
        },
{
    let k = key.to_owned();
    let mut i: usize = 0;
    while i < es.len()
        invariant
            i <= es@.len(),
            k@ == key@,
            lookup_from(es@, key@, 0) == lookup_from(es@, key@, i as int),
        decreases es@.len() - i,
    {
        if es[i].0 == k {
            return Some(&es[i].1);
        }
        i = i + 1;
    }
    None
}

fn lookup_index(es: &Vec<(String, JsonValue)>, key: &str) -> (r: Option<usize>)
    ensures
        r matches Some(i) ==> lookup_from(es@, key@, 0) == Some(i as int),
        r is None ==> lookup_from(es@, key@, 0) is None,
{
    let k = key.to_owned();
    let mut i: usize = 0;
    while i < es.len()
        invariant
            i <= es@.len(),
            k@ == key@,
            lookup_from(es@, key@, 0) == lookup_from(es@, key@, i as int),
        decreases es@.len() - i,
    {
        if es[i].0 == k {
            return Some(i);
        }
        i = i + 1;
    }
    None
}

impl JsonValue {
    /// The member with this key, when this is an object that has one.
    pub fn get<'a>(&'a self, key: &str) -> (r: Option<&'a JsonValue>)
        ensures
            opt_deref(r) == json_get(*self, key@),
    {
        match self {
            JsonValue::Object(es) => lookup(es, key),
            _ => None,
        }
    }

    /// The element at this index, when this is an array that long.
    pub fn get_index<'a>(&'a self, i: usize) -> (r: Option<&'a JsonValue>)
        ensures
            opt_deref(r) == json_at(*self, i as int),
    {
        match self {
            JsonValue::Array(a) => if i < a.len() {
                Some(&a[i])
            } else {
                None
            },
            _ => None,
        }
    }

    /// The text, when this is a string.
    pub fn as_str<'a>(&'a self) -> (r: Option<&'a str>)
        ensures
            match r {
                Some(s) => json_str(*self) == Some(s@),
                None => json_str(*self) is None,
            },
    {
        match self {
            JsonValue::Str(s) => Some(s.as_str()),
            _ => None,
        }
    }

    /// The number, when this is a non-negative integer.
    pub fn as_u64(&self) -> (r: Option<u64>)
        ensures
            r == json_u64(*self),
    {
        match self {
            JsonValue::Number(JsonNumber::PosInt(n)) => Some(*n),
            _ => None,
        }
    }

    /// The elements, when this is an array.
    pub fn as_array<'a>(&'a self) -> (r: Option<&'a Vec<JsonValue>>)
        ensures
            match r {
                Some(a) => json_items(*self) == Some(a@),
                None => json_items(*self) is None,
            },
    {
        match self {
            JsonValue::Array(a) => Some(a),
            _ => None,
        }
    }

    /// The value at the end of a path of object keys.
    pub fn path<'a>(&'a self, keys: &[&str]) -> (r: Option<&'a JsonValue>)
        ensures
            opt_deref(r) == json_path(*self, keys_view(keys@)),
    {
        let ghost kv = keys_view(keys@);
        let mut cur: &JsonValue = self;
        let mut i: usize = 0;
        assert(kv.skip(0) =~= kv);
        while i < keys.len()
            invariant
                i <= keys@.len(),
                kv == keys_view(keys@),
                json_path(*self, kv) == json_path(*cur, kv.skip(i as int)),
            decreases keys@.len() - i,
        {
            assert(kv.skip(i as int)[0] == keys@[i as int]@);
            assert(kv.skip(i as int).drop_first() =~= kv.skip(i + 1));
            match cur.get(keys[i]) {
                Some(n) => {
                    cur = n;
                },
                None => {
                    return None;
                },
            }
            i = i + 1;
        }
        assert(kv.skip(i as int) =~= Seq::<Seq<char>>::empty());
        Some(cur)
    }

    /// The member with this key, moved out of the object.
    pub fn take_field(self, key: &str) -> (r: Option<JsonValue>)
        ensures
            r == json_get(self, key@),
    {
        match self {
            JsonValue::Object(es) => {
                let ghost orig = es@;
                let mut es = es;
                match lookup_index(&es, key) {
                    Some(i) => {
                        proof {
                            lemma_lookup_from_bounds(orig, key@, 0);
                        }
                        let (_, v) = es.remove(i);
                        Some(v)
                    },
                    None => None,
                }
            },
            _ => None,
        }
    }

    /// The elements, moved out of the array.
    pub fn into_items(self) -> (r: Option<Vec<JsonValue>>)
        ensures
            match r {
                Some(a) => json_items(self) == Some(a@),
                None => json_items(self) is None,
            },
    {
        match self {
            JsonValue::Array(a) => Some(a),
            _ => None,
        }
    }
}

// ---------------------------------------------------------------------------
// Parsing
// ---------------------------------------------------------------------------

#[verifier::external_type_specification]
#[verifier::external_body]
pub struct ExSerdeJsonValue(serde_json::Value);

/// What `serde_json::from_str::<Value>` gives for a text: the parsed value, or
/// the text of the error it reports.
pub uninterp spec fn json_parse(text: Seq<char>) -> Result<JsonValue, Seq<char>>;

/// One `serde_json::Value` as a [`JsonValue`]: each variant to its counterpart,
/// numbers told apart by `as_u64` and `as_i64` (any other number kept as its
/// printed text), object members in the order in which the map yields them.
#[verifier::external_body]
fn from_serde(v: serde_json::Value) -> JsonValue {
    match v {
        V::Null => JsonValue::Null,
        V::Bool(b) => JsonValue::Bool(b),
        V::Number(n) => JsonValue::Number(match (n.as_u64(), n.as_i64()) {
            (Some(u), _) => JsonNumber::PosInt(u),
            (None, Some(i)) => JsonNumber::NegInt(i),
            (None, None) => JsonNumber::Float(n.to_string()),
        }),
        V::String(s) => JsonValue::Str(s),
        V::Array(a) => JsonValue::Array(a.into_iter().map(from_serde).collect()),
        V::Object(m) => JsonValue::Object(m.into_iter().map(|(k, x)| (k, from_serde(x))).collect()),
    }
}

/// `serde_json::from_str::<serde_json::Value>`, the error shown with
/// `to_string`. The result is named by [`json_parse`]: it depends on the text
/// alone; the JSON grammar and the error texts are not spelled out.
#[verifier::external_body]
pub(crate) fn parse_json(text: &str) -> (r: Result<JsonValue, String>)
    ensures
        match r {
            Ok(v) => json_parse(text@) == Ok::<JsonValue, Seq<char>>(v),
            Err(e) => json_parse(text@) == Err::<JsonValue, Seq<char>>(e@),
        },
{
    match serde_json::from_str::<serde_json::Value>(text) {
        Ok(v) => Ok(from_serde(v)),
        Err(e) => Err(e.to_string()),
    }
}

/// The JSON text that `serde_json` writes for a value (`Value::to_string`).
pub uninterp spec fn json_text(v: Json) -> Seq<char>;

/// A [`JsonValue`] as a `serde_json::Value`: each variant to its counterpart,
/// a number kept as text parsed back (null where it does not parse).
#[verifier::external_body]
fn to_serde(v: &JsonValue) -> serde_json::Value {
    match v {
        JsonValue::Null => V::Null,
        JsonValue::Bool(b) => V::Bool(*b),
        JsonValue::Number(JsonNumber::PosInt(u)) => V::from(*u),
        JsonValue::Number(JsonNumber::NegInt(i)) => V::from(*i),
        JsonValue::Number(JsonNumber::Float(t)) => serde_json::from_str(t).unwrap_or(V::Null),
        JsonValue::Str(s) => V::String(s.clone()),
        JsonValue::Array(a) => V::Array(a.iter().map(to_serde).collect()),
        JsonValue::Object(m) => V::Object(m.iter().map(|(k, x)| (k.clone(), to_serde(x))).collect()),
    }
}

/// `serde_json::Value::to_string` (compact JSON text). The result is named by
/// [`json_text`]: it depends on the value alone; the serialization rules are
/// not spelled out.
#[verifier::external_body]
pub(crate) fn json_to_text(v: &JsonValue) -> (r: String)
    ensures
        r@ == json_text(v@),
{
    to_serde(v).to_string()
}

impl JsonValue {
    /// A copy of the value, member by member.
    pub fn deep_clone(&self) -> (r: JsonValue)
        ensures
            json_view(r) == json_view(*self),
        decreases self,
    {
        match self {
            JsonValue::Null => JsonValue::Null,
            JsonValue::Bool(b) => JsonValue::Bool(*b),
            JsonValue::Number(n) => JsonValue::Number(
                match n {
                    JsonNumber::PosInt(u) => JsonNumber::PosInt(*u),
                    JsonNumber::NegInt(i) => JsonNumber::NegInt(*i),
                    JsonNumber::Float(t) => JsonNumber::Float(t.clone()),
                },
            ),
            JsonValue::Str(s) => JsonValue::Str(s.clone()),
            JsonValue::Array(a) => {
                let mut out: Vec<JsonValue> = Vec::new();
                let mut i: usize = 0;
                while i < a.len()
                    invariant
                        i <= a@.len(),
                        *self == JsonValue::Array(*a),
                        out@.len() == i,
                        forall|k: int| 0 <= k < i ==> json_view(#[trigger] a@[k]) == json_view(out@[k]),
                    decreases a@.len() - i,
                {
                    proof {
                        broadcast use vstd::std_specs::vec::axiom_vec_decreases_to_view;

                        assert(decreases_to!(*self => (*self)->Array_0));
                        assert((*self)->Array_0 == *a);
                        assert(decreases_to!(*a => a@));
                        assert(decreases_to!(a@ => a@[i as int]));
                        assert(decreases_to!(*self => a@[i as int]));
                    }
                    let c = a[i].deep_clone();
                    out.push(c);
                    i = i + 1;
                }
                let ghost ov = out@;
                let r = JsonValue::Array(out);
                proof {
                    let x = json_view(r)->Arr_0;
                    let y = json_view(*self)->Arr_0;
                    assert(x.len() == y.len());
                    assert forall|k: int| 0 <= k < x.len() implies x[k] == y[k] by {
                        assert(x[k] == json_view(ov[k]));
                        assert(y[k] == json_view(a@[k]));
                    }
                    assert(x =~= y);
                }
                r
            },
            JsonValue::Object(m) => {
                let mut out: Vec<(String, JsonValue)> = Vec::new();
                let mut i: usize = 0;
                while i < m.len()
                    invariant
                        i <= m@.len(),
                        *self == JsonValue::Object(*m),
                        out@.len() == i,
                        forall|k: int|
                            0 <= k < i ==> (#[trigger] m@[k]).0@ == out@[k].0@ && json_view(m@[k].1) == json_view(
                                out@[k].1,
                            ),
                    decreases m@.len() - i,
                {
                    proof {
                        broadcast use vstd::std_specs::vec::axiom_vec_decreases_to_view;

                        assert(decreases_to!(*self => (*self)->Object_0));
                        assert((*self)->Object_0 == *m);
                        assert(decreases_to!(*m => m@));
                        assert(decreases_to!(m@ => m@[i as int]));
                        assert(decreases_to!(m@[i as int] => m@[i as int].1));
                        assert(decreases_to!(*self => m@[i as int].1));
                    }
                    let c = m[i].1.deep_clone();
                    out.push((m[i].0.clone(), c));
                    i = i + 1;
                }
                let ghost ov = out@;
                let r = JsonValue::Object(out);
                proof {
                    let x = json_view(r)->Obj_0;
                    let y = json_view(*self)->Obj_0;
                    assert(x.len() == y.len());
                    assert forall|k: int| 0 <= k < x.len() implies x[k] == y[k] by {
                        assert(x[k] == (ov[k].0@, json_view(ov[k].1)));
                        assert(y[k] == (m@[k].0@, json_view(m@[k].1)));
                    }
                    assert(x =~= y);
                }
                r
            },
        }
    }
}

/// A JSON value as mathematics: text as character sequences.
pub enum Json {
    Null,
    Bool(bool),
    PosInt(u64),
    NegInt(i64),
    Float(Seq<char>),
    Str(Seq<char>),
    Arr(Seq<Json>),
    Obj(Seq<(Seq<char>, Json)>),
}

pub open spec fn json_view(v: JsonValue) -> Json
    decreases v,
{
    match v {
        JsonValue::Null => Json::Null,
        JsonValue::Bool(b) => Json::Bool(b),
        JsonValue::Number(JsonNumber::PosInt(n)) => Json::PosInt(n),
        JsonValue::Number(JsonNumber::NegInt(n)) => Json::NegInt(n),
        JsonValue::Number(JsonNumber::Float(t)) => Json::Float(t@),
        JsonValue::Str(s) => Json::Str(s@),
        JsonValue::Array(a) => Json::Arr(
            Seq::new(
                a@.len(),
                |i: int|
                    if 0 <= i < a@.len() {
                        proof {
                            broadcast use vstd::std_specs::vec::axiom_vec_decreases_to_view;

                            assert(decreases_to!(v => v->Array_0));
                            assert(decreases_to!(a => a@));
                            assert(decreases_to!(a@ => a@[i]));
                        }
                        json_view(a@[i])
                    } else {
                        Json::Null
                    },
            ),
        ),
        JsonValue::Object(m) => Json::Obj(
            Seq::new(
                m@.len(),
                |i: int|
                    if 0 <= i < m@.len() {
                        proof {
                            broadcast use vstd::std_specs::vec::axiom_vec_decreases_to_view;

                            assert(decreases_to!(v => v->Object_0));
                            assert(decreases_to!(m => m@));
                            assert(decreases_to!(m@ => m@[i]));
                            assert(decreases_to!(m@[i] => m@[i].1));
                        }
                        (m@[i].0@, json_view(m@[i].1))
                    } else {
                        (Seq::empty(), Json::Null)
                    },
            ),
        ),
    }
}

impl View for JsonValue {
    type V = Json;

    open spec fn view(&self) -> Json {
        json_view(*self)
    }
}

/// The members of an object as mathematics.
pub open spec fn members_view(m: Seq<(String, JsonValue)>) -> Seq<(Seq<char>, Json)> {
    Seq::new(m.len(), |i: int| (m[i].0@, json_view(m[i].1)))
}

proof fn lemma_object_view(m: Vec<(String, JsonValue)>)
    ensures
        json_view(JsonValue::Object(m)) == Json::Obj(members_view(m@)),
{
    let x = json_view(JsonValue::Object(m))->Obj_0;
    let y = members_view(m@);
    assert(x.len() == y.len());
    assert forall|k: int| 0 <= k < x.len() implies x[k] == y[k] by {}
    assert(x =~= y);
}

/// `str` order: character by character (UTF-8 keeps the order of code
/// points, so this is also the byte order of `String`'s `Ord`).
pub open spec fn chars_lt(a: Seq<char>, b: Seq<char>) -> bool
    decreases a.len(),
{
    if a.len() == 0 {
        b.len() > 0
    } else if b.len() == 0 {
        false
    } else if a[0] != b[0] {
        (a[0] as u32) < (b[0] as u32)
    } else {
        chars_lt(a.drop_first(), b.drop_first())
    }
}

/// The first member at or after `i` with key `k`.
pub open spec fn member_index(ms: Seq<(Seq<char>, Json)>, k: Seq<char>, i: int) -> Option<int>
    decreases ms.len() - i,
{
    if i < 0 || i >= ms.len() {
        None
    } else if ms[i].0 == k {
        Some(i)
    } else {
        member_index(ms, k, i + 1)
    }
}

/// Where a map ordered by key puts a new key `k`: before the first key
/// (at or after `i`) that comes after it.
pub open spec fn member_slot(ms: Seq<(Seq<char>, Json)>, k: Seq<char>, i: int) -> int
    decreases ms.len() - i,
{
    if i < 0 || i >= ms.len() {
        ms.len() as int
    } else if chars_lt(k, ms[i].0) {
        i
    } else {
        member_slot(ms, k, i + 1)
    }
}

/// `source` merged into `target`: where both are objects, each member of the
/// source is merged into the target's member with that key (a new key is
/// added in key order); anywhere else the source replaces the target.
pub open spec fn merge_json(target: Json, source: Json) -> Json
    decreases source, 1int, 0int,
{
    match source {
        Json::Obj(sm) => match target {
            Json::Obj(tm) => Json::Obj(merge_prefix(tm, source, sm.len())),
            _ => source,
        },
        _ => source,
    }
}

/// The target's members after merging the first `n` members of the source.
pub open spec fn merge_prefix(tm: Seq<(Seq<char>, Json)>, source: Json, n: nat) -> Seq<(Seq<char>, Json)>
    decreases source, 0int, n,
{
    if source is Obj && 0 < n <= source->Obj_0.len() {
        let sm = source->Obj_0;
        let prev = merge_prefix(tm, source, (n - 1) as nat);
        let k = sm[n - 1].0;
        let v = sm[n - 1].1;
        proof {
            assert(decreases_to!(source => source->Obj_0));
            assert(decreases_to!(sm => sm[n - 1]));
            assert(decreases_to!(sm[n - 1] => sm[n - 1].1));
        }
        match member_index(prev, k, 0) {
            Some(p) => if 0 <= p < prev.len() {
                prev.update(p, (k, merge_json(prev[p].1, v)))
            } else {
                prev
            },
            None => prev.insert(member_slot(prev, k, 0), (k, merge_json(Json::Null, v))),
        }
    } else {
        tm
    }
}

proof fn lemma_member_index(ms: Seq<(Seq<char>, Json)>, k: Seq<char>, i: int)
    ensures
        member_index(ms, k, i) matches Some(p) ==> i <= p < ms.len() && ms[p].0 == k,
    decreases ms.len() - i,
{
    if !(i < 0 || i >= ms.len()) && ms[i].0 != k {
        lemma_member_index(ms, k, i + 1);
    }
}

proof fn lemma_member_slot(ms: Seq<(Seq<char>, Json)>, k: Seq<char>, i: int)
    requires
        0 <= i <= ms.len(),
    ensures
        i <= member_slot(ms, k, i) <= ms.len(),
    decreases ms.len() - i,
{
    if i < ms.len() && !chars_lt(k, ms[i].0) {
        lemma_member_slot(ms, k, i + 1);
    }
}

fn chars_lt_exec(a: &[char], b: &[char]) -> (r: bool)
    ensures
        r == chars_lt(a@, b@),
{
    let mut i: usize = 0;
    assert(a@.skip(0) =~= a@);
    assert(b@.skip(0) =~= b@);
    while i < a.len() && i < b.len() && a[i] == b[i]
        invariant
            i <= a@.len(),
            i <= b@.len(),
            chars_lt(a@, b@) == chars_lt(a@.skip(i as int), b@.skip(i as int)),
        decreases a@.len() - i,
    {
        assert(a@.skip(i as int).drop_first() =~= a@.skip(i + 1));
        assert(b@.skip(i as int).drop_first() =~= b@.skip(i + 1));
        i = i + 1;
    }
    if i == a.len() {
        assert(a@.skip(i as int).len() == 0);
        i < b.len()
    } else if i == b.len() {
        assert(b@.skip(i as int).len() == 0);
        false
    } else {
        assert(a@.skip(i as int)[0] == a@[i as int]);
        assert(b@.skip(i as int)[0] == b@[i as int]);
        (a[i] as u32) < (b[i] as u32)
    }
}

fn find_member(tm: &Vec<(String, JsonValue)>, k: &String) -> (r: Option<usize>)
    ensures
        match r {
            Some(p) => member_index(members_view(tm@), k@, 0) == Some(p as int),
            None => member_index(members_view(tm@), k@, 0) is None,
        },
{
    let ghost mv = members_view(tm@);
    let mut i: usize = 0;
    while i < tm.len()
        invariant
            i <= tm@.len(),
            mv == members_view(tm@),
            member_index(mv, k@, 0) == member_index(mv, k@, i as int),
        decreases tm@.len() - i,
    {
        if tm[i].0 == *k {
            return Some(i);
        }
        i = i + 1;
    }
    None
}

fn member_slot_exec(tm: &Vec<(String, JsonValue)>, k: &String) -> (q: usize)
    ensures
        q == member_slot(members_view(tm@), k@, 0),
{
    let ghost mv = members_view(tm@);
    let kc = crate::text::chars_of(k.as_str());
    let mut i: usize = 0;
    while i < tm.len()
        invariant
            i <= tm@.len(),
            mv == members_view(tm@),
            kc@ == k@,
            member_slot(mv, k@, 0) == member_slot(mv, k@, i as int),
        decreases tm@.len() - i,
    {
        let key = crate::text::chars_of(tm[i].0.as_str());
        if chars_lt_exec(kc.as_slice(), key.as_slice()) {
            return i;
        }
        i = i + 1;
    }
    i
}

fn merge_owned(t: JsonValue, s: &JsonValue) -> (r: JsonValue)
    ensures
        json_view(r) == merge_json(json_view(t), json_view(*s)),
    decreases s,
{
    match s {
        JsonValue::Object(sm) => match t {
            JsonValue::Object(tm) => {
                let ghost sv = json_view(*s);
                let ghost tv0 = members_view(tm@);
                proof {
                    lemma_object_view(tm);
                    lemma_object_view(*sm);
                }
                let mut tm = tm;
                let mut i: usize = 0;
                while i < sm.len()
                    invariant
                        i <= sm@.len(),
                        *s == JsonValue::Object(*sm),
                        sv == json_view(*s),
                        sv == Json::Obj(members_view(sm@)),
                        members_view(tm@) == merge_prefix(tv0, sv, i as nat),
                    decreases sm@.len() - i,
                {
                    proof {
                        broadcast use vstd::std_specs::vec::axiom_vec_decreases_to_view;

                        assert(decreases_to!(*s => (*s)->Object_0));
                        assert((*s)->Object_0 == *sm);
                        assert(decreases_to!(*sm => sm@));
                        assert(decreases_to!(sm@ => sm@[i as int]));
                        assert(decreases_to!(sm@[i as int] => sm@[i as int].1));
                    }
                    let ghost prev = members_view(tm@);
                    let k = &sm[i].0;
                    let v = &sm[i].1;
                    assert(sv->Obj_0[i as int] == (k@, json_view(*v)));
                    match find_member(&tm, k) {
                        Some(p) => {
                            proof {
                                lemma_member_index(prev, k@, 0);
                            }
                            let mut slot = (String::new(), JsonValue::Null);
                            tm.set_and_swap(p, &mut slot);
                            let (key, old_v) = slot;
                            let nv = merge_owned(old_v, v);
                            let ghost nvv = json_view(nv);
                            tm.set(p, (key, nv));
                            assert(members_view(tm@) =~= prev.update(p as int, (k@, nvv)));
                        },
                        None => {
                            let q = member_slot_exec(&tm, k);
                            proof {
                                lemma_member_slot(prev, k@, 0);
                            }
                            let nv = merge_owned(JsonValue::Null, v);
                            let ghost nvv = json_view(nv);
                            tm.insert(q, (k.clone(), nv));
                            assert(members_view(tm@) =~= prev.insert(q as int, (k@, nvv)));
                        },
                    }
                    i = i + 1;
                }
                let ghost fv = members_view(tm@);
                let r = JsonValue::Object(tm);
                proof {
                    lemma_object_view(tm);
                }
                r
            },
            other => {
                let r = s.deep_clone();
                r
            },
        },
        _ => s.deep_clone(),
    }
}

/// Merges `source` into `target`, as [`merge_json`] says: objects merge key
/// by key (three levels deep and beyond), anything else is replaced.
pub fn deep_merge_json(target: &mut JsonValue, source: &JsonValue)
    ensures
        json_view(*final(target)) == merge_json(json_view(*old(target)), json_view(*source)),
{
    let mut t = JsonValue::Null;
    std::mem::swap(&mut t, target);
    let r = merge_owned(t, source);
    *target = r;
}

/// The elements of an array as mathematics.
pub open spec fn items_view(a: Seq<JsonValue>) -> Seq<Json> {
    Seq::new(a.len(), |i: int| json_view(a[i]))
}

/// A string value.
pub fn json_string(s: String) -> (v: JsonValue)
    ensures
        json_view(v) == Json::Str(s@),
{
    JsonValue::Str(s)
}

/// An array value.
pub fn json_array(items: Vec<JsonValue>) -> (v: JsonValue)
    ensures
        json_view(v) == Json::Arr(items_view(items@)),
{
    let ghost iv = items@;
    let v = JsonValue::Array(items);
    proof {
        let x = json_view(v)->Arr_0;
        let y = items_view(iv);
        assert(x.len() == y.len());
        assert forall|k: int| 0 <= k < x.len() implies x[k] == y[k] by {}
        assert(x =~= y);
    }
    v
}

/// An object value, members in the order given.
pub fn json_object(members: Vec<(String, JsonValue)>) -> (v: JsonValue)
    ensures
        json_view(v) == Json::Obj(members_view(members@)),
{
    proof {
        lemma_object_view(members);
    }
    JsonValue::Object(members)
}

} // verus!
