//! A JSON document model held as plain values.
//!
//! Numbers are split the way the runtime reads them: integers (every value
//! that fits `i64` or `u64`) are held exactly, and any other number is held
//! by its decimal text.  Arrays and objects are linked lists, so that a
//! document is a plain value that can be copied and compared as a whole.

use vstd::prelude::*;

verus! {

/// The lower-case hexadecimal digit of `d < 16`.
pub open spec fn hex_digit(d: int) -> char {
    if d < 10 {
        ('0' as int + d) as char
    } else {
        ('a' as int + d - 10) as char
    }
}

/// The last `n` hexadecimal digits of `v`, most significant first.
pub open spec fn hex_digits(v: nat, n: nat) -> Seq<char>
    decreases n,
{
    if n == 0 {
        Seq::empty()
    } else {
        hex_digits(v / 16, (n - 1) as nat).push(hex_digit((v % 16) as int))
    }
}

/// The hyphenated lower-case text of the identifier `id`: its 32
/// hexadecimal digits, most significant first, grouped 8-4-4-4-12.
#[verifier::opaque]
pub open spec fn uuid_text(id: u128) -> Seq<char> {
    let h = hex_digits(id as nat, 32);
    h.subrange(0, 8) + "-"@ + h.subrange(8, 12) + "-"@ + h.subrange(12, 16) + "-"@ + h.subrange(16, 20)
        + "-"@ + h.subrange(20, 32)
}

/// Formats `id` with `uuid::Uuid::from_u128` and its `Display` impl (the
/// hyphenated form): the big-endian value in lower-case hexadecimal, as
/// `uuid_text` spells it.
#[verifier::external_body]
pub fn uuid_to_string(id: u128) -> (r: String)
    ensures
        r@ == uuid_text(id),
{
    uuid::Uuid::from_u128(id).to_string()
}

/// A JSON value.
#[derive(Debug)]
pub enum JsonValue {
    /// `null`.
    Null,
    /// `true` / `false`.
    Bool(bool),
    /// An integral number.
    Int(i128),
    /// A non-integral number, by its decimal text.
    Float(String),
    /// A string.
    Str(String),
    /// An array.
    Array(JsonItems),
    /// An object: its members in order.
    Object(JsonMembers),
}

/// The items of a JSON array, first to last.
#[derive(Debug)]
pub enum JsonItems {
    /// No more items.
    Nil,
    /// An item followed by the rest.
    Cons(Box<JsonValue>, Box<JsonItems>),
}

/// The members of a JSON object, first to last.
#[derive(Debug)]
pub enum JsonMembers {
    /// No more members.
    Nil,
    /// A member (key and value) followed by the rest.
    Cons(String, Box<JsonValue>, Box<JsonMembers>),
}

/// The mathematical value of a JSON document: strings by their characters.
pub enum JsonModel {
    Null,
    Bool(bool),
    Int(int),
    Float(Seq<char>),
    Str(Seq<char>),
    Array(Seq<JsonModel>),
    Object(Seq<(Seq<char>, JsonModel)>),
}

impl JsonValue {
    /// The model of this value.
    pub open spec fn model(self) -> JsonModel
        decreases self,
    {
        match self {
            JsonValue::Null => JsonModel::Null,
            JsonValue::Bool(b) => JsonModel::Bool(b),
            JsonValue::Int(i) => JsonModel::Int(i as int),
            JsonValue::Float(s) => JsonModel::Float(s@),
            JsonValue::Str(s) => JsonModel::Str(s@),
            JsonValue::Array(items) => JsonModel::Array(items.models()),
            JsonValue::Object(members) => JsonModel::Object(members.models()),
        }
    }

    /// Whether this value is `null`.
    pub fn is_null(&self) -> (r: bool)
        ensures
            r == (*self is Null),
    {
        match self {
            JsonValue::Null => true,
            _ => false,
        }
    }

    /// Build an array from its items, in order.
    pub fn array(items: Vec<JsonValue>) -> (r: JsonValue)
        ensures
            r == JsonValue::Array(JsonItems::from_seq(items@)),
    {
        JsonValue::Array(JsonItems::from_vec(items))
    }

    /// Build an object from its members, in order.
    pub fn object(members: Vec<(String, JsonValue)>) -> (r: JsonValue)
        ensures
            r == JsonValue::Object(JsonMembers::from_seq(members@)),
    {
        JsonValue::Object(JsonMembers::from_vec(members))
    }

    /// An empty object (`{}`).
    pub fn empty_object() -> (r: JsonValue)
        ensures
            r == JsonValue::Object(JsonMembers::Nil),
    {
        JsonValue::Object(JsonMembers::Nil)
    }

    /// An integer value.
    pub fn from_u64(n: u64) -> (r: JsonValue)
        ensures
            r == JsonValue::Int(n as i128),
    {
        JsonValue::Int(n as i128)
    }

    /// A boolean value.
    pub fn from_bool(b: bool) -> (r: JsonValue)
        ensures
            r == JsonValue::Bool(b),
    {
        JsonValue::Bool(b)
    }

    /// The hyphenated text of an identifier, as a string value.
    pub fn from_uuid(id: u128) -> (r: JsonValue)
        ensures
            r matches JsonValue::Str(t) && t@ == uuid_text(id),
    {
        JsonValue::Str(uuid_to_string(id))
    }

    /// A string value.
    pub fn string(s: &str) -> (r: JsonValue)
        ensures
            r matches JsonValue::Str(t) && t@ == s@,
    {
        JsonValue::Str(s.to_owned())
    }
}

/// The items listed from a sequence have its models, in order.
pub proof fn lemma_items_models(s: Seq<JsonValue>)
    ensures
        JsonItems::from_seq(s).models() == s.map_values(|v: JsonValue| v.model()),
    decreases s.len(),
{
    if s.len() > 0 {
        lemma_items_models(s.drop_first());
        assert(s.map_values(|v: JsonValue| v.model())
            =~= seq![s[0].model()] + s.drop_first().map_values(|v: JsonValue| v.model()));
    } else {
        assert(s.map_values(|v: JsonValue| v.model()) =~= Seq::<JsonModel>::empty());
    }
}

/// The members listed from a sequence have its keys and models, in order.
pub proof fn lemma_members_models(s: Seq<(String, JsonValue)>)
    ensures
        JsonMembers::from_seq(s).models() == s.map_values(|m: (String, JsonValue)| (m.0@, m.1.model())),
    decreases s.len(),
{
    if s.len() > 0 {
        lemma_members_models(s.drop_first());
        assert(s.map_values(|m: (String, JsonValue)| (m.0@, m.1.model()))
            =~= seq![(s[0].0@, s[0].1.model())] + s.drop_first().map_values(|m: (String, JsonValue)| (m.0@, m.1.model())));
    } else {
        assert(s.map_values(|m: (String, JsonValue)| (m.0@, m.1.model())) =~= Seq::<(Seq<char>, JsonModel)>::empty());
    }
}

impl JsonItems {
    /// The models of the items, in order.
    pub open spec fn models(self) -> Seq<JsonModel>
        decreases self,
    {
        match self {
            JsonItems::Nil => Seq::empty(),
            JsonItems::Cons(v, rest) => seq![v.model()] + rest.models(),
        }
    }

    /// The list holding the items of `s`, in order.
    pub open spec fn from_seq(s: Seq<JsonValue>) -> JsonItems
        decreases s.len(),
    {
        if s.len() == 0 {
            JsonItems::Nil
        } else {
            JsonItems::Cons(Box::new(s[0]), Box::new(JsonItems::from_seq(s.drop_first())))
        }
    }

    /// Build the list from a vector, keeping the order.
    pub fn from_vec(items: Vec<JsonValue>) -> (r: JsonItems)
        ensures
            r == JsonItems::from_seq(items@),
    {
        let mut items = items;
        let mut acc = JsonItems::Nil;
        let ghost orig = items@;
        while items.len() > 0
            invariant
                items@ == orig.take(items@.len() as int),
                items@.len() <= orig.len(),
                acc == JsonItems::from_seq(orig.skip(items@.len() as int)),
            decreases items@.len(),
        {
            let ghost k = items@.len() as int;
            let v = items.pop().unwrap();
            proof {
                assert(orig.skip(k - 1).drop_first() == orig.skip(k));
                assert(orig.skip(k - 1)[0] == v);
                assert(items@ == orig.take(k - 1));
            }
            acc = JsonItems::Cons(Box::new(v), Box::new(acc));
        }
        proof {
            assert(orig.skip(0) == orig);
        }
        acc
    }
}

impl JsonMembers {
    /// The models of the members (key characters and value model), in order.
    pub open spec fn models(self) -> Seq<(Seq<char>, JsonModel)>
        decreases self,
    {
        match self {
            JsonMembers::Nil => Seq::empty(),
            JsonMembers::Cons(k, v, rest) => seq![(k@, v.model())] + rest.models(),
        }
    }

    /// The list holding the members of `s`, in order.
    pub open spec fn from_seq(s: Seq<(String, JsonValue)>) -> JsonMembers
        decreases s.len(),
    {
        if s.len() == 0 {
            JsonMembers::Nil
        } else {
            JsonMembers::Cons(
                s[0].0,
                Box::new(s[0].1),
                Box::new(JsonMembers::from_seq(s.drop_first())),
            )
        }
    }

    /// Build the list from a vector, keeping the order.
    pub fn from_vec(members: Vec<(String, JsonValue)>) -> (r: JsonMembers)
        ensures
            r == JsonMembers::from_seq(members@),
    {
        let mut members = members;
        let mut acc = JsonMembers::Nil;
        let ghost orig = members@;
        while members.len() > 0
            invariant
                members@ == orig.take(members@.len() as int),
                members@.len() <= orig.len(),
                acc == JsonMembers::from_seq(orig.skip(members@.len() as int)),
            decreases members@.len(),
        {
            let ghost k = members@.len() as int;
            let (key, v) = members.pop().unwrap();
            proof {
                assert(orig.skip(k - 1).drop_first() == orig.skip(k));
                assert(orig.skip(k - 1)[0] == (key, v));
                assert(members@ == orig.take(k - 1));
            }
            acc = JsonMembers::Cons(key, Box::new(v), Box::new(acc));
        }
        proof {
            assert(orig.skip(0) == orig);
        }
        acc
    }

    /// The value of the first member whose key is `key`, if any.
    pub open spec fn spec_get(self, key: Seq<char>) -> Option<JsonValue>
        decreases self,
    {
        match self {
            JsonMembers::Nil => None,
            JsonMembers::Cons(k, v, rest) => if k@ == key { Some(*v) } else { rest.spec_get(key) },
        }
    }

    /// The value of the first member whose key is `key`, if any.
    pub fn get(&self, key: &str) -> (r: Option<&JsonValue>)
        ensures
            r is Some <==> self.spec_get(key@) is Some,
            r matches Some(v) ==> self.spec_get(key@) == Some(*v),
        decreases self,
    {
        match self {
            JsonMembers::Nil => None,
            JsonMembers::Cons(k, v, rest) => {
                if crate::text::str_eq(k.as_str(), key) {
                    Some(&**v)
                } else {
                    rest.get(key)
                }
            },
        }
    }
}

impl Clone for JsonValue {
    fn clone(&self) -> (r: Self)
        ensures
            r == *self,
        decreases self,
    {
        match self {
            JsonValue::Null => JsonValue::Null,
            JsonValue::Bool(b) => JsonValue::Bool(*b),
            JsonValue::Int(i) => JsonValue::Int(*i),
            JsonValue::Float(s) => JsonValue::Float(s.clone()),
            JsonValue::Str(s) => JsonValue::Str(s.clone()),
            JsonValue::Array(items) => JsonValue::Array(items.clone()),
            JsonValue::Object(members) => JsonValue::Object(members.clone()),
        }
    }
}

impl Clone for JsonItems {
    fn clone(&self) -> (r: Self)
        ensures
            r == *self,
        decreases self,
    {
        match self {
            JsonItems::Nil => JsonItems::Nil,
            JsonItems::Cons(v, rest) => {
                let v2 = (**v).clone();
                let rest2 = (**rest).clone();
                JsonItems::Cons(Box::new(v2), Box::new(rest2))
            },
        }
    }
}

impl Clone for JsonMembers {
    fn clone(&self) -> (r: Self)
        ensures
            r == *self,
        decreases self,
    {
        match self {
            JsonMembers::Nil => JsonMembers::Nil,
            JsonMembers::Cons(k, v, rest) => {
                let v2 = (**v).clone();
                let rest2 = (**rest).clone();
                JsonMembers::Cons(k.clone(), Box::new(v2), Box::new(rest2))
            },
        }
    }
}

/// Whether two values are equal: the same kind, with equal scalars, items
/// and members (members compared in order).
pub fn json_eq(a: &JsonValue, b: &JsonValue) -> (r: bool)
    ensures
        r == (a.model() == b.model()),
    decreases a,
{
    match (a, b) {
        (JsonValue::Null, JsonValue::Null) => true,
        (JsonValue::Bool(x), JsonValue::Bool(y)) => *x == *y,
        (JsonValue::Int(x), JsonValue::Int(y)) => *x == *y,
        (JsonValue::Float(x), JsonValue::Float(y)) => crate::text::str_eq(x.as_str(), y.as_str()),
        (JsonValue::Str(x), JsonValue::Str(y)) => crate::text::str_eq(x.as_str(), y.as_str()),
        (JsonValue::Array(x), JsonValue::Array(y)) => items_eq(x, y),
        (JsonValue::Object(x), JsonValue::Object(y)) => members_eq(x, y),
        _ => false,
    }
}

/// Whether two item lists are equal item by item.
fn items_eq(a: &JsonItems, b: &JsonItems) -> (r: bool)
    ensures
        r == (a.models() == b.models()),
    decreases a,
{
    match (a, b) {
        (JsonItems::Nil, JsonItems::Nil) => true,
        (JsonItems::Cons(x, xs), JsonItems::Cons(y, ys)) => {
            let e = json_eq(&**x, &**y);
            let rest = items_eq(&**xs, &**ys);
            proof {
                let l = seq![x.model()] + xs.models();
                let m = seq![y.model()] + ys.models();
                if l == m {
                    assert(l[0] == m[0]);
                    assert(l.drop_first() =~= xs.models());
                    assert(m.drop_first() =~= ys.models());
                }
                if e && rest {
                    assert(l =~= m);
                }
            }
            e && rest
        },
        (JsonItems::Nil, JsonItems::Cons(y, ys)) => {
            proof {
                assert((seq![y.model()] + ys.models()).len() > 0);
            }
            false
        },
        (JsonItems::Cons(x, xs), JsonItems::Nil) => {
            proof {
                assert((seq![x.model()] + xs.models()).len() > 0);
            }
            false
        },
    }
}

/// Whether two member lists are equal member by member, in order.
fn members_eq(a: &JsonMembers, b: &JsonMembers) -> (r: bool)
    ensures
        r == (a.models() == b.models()),
    decreases a,
{
    match (a, b) {
        (JsonMembers::Nil, JsonMembers::Nil) => true,
        (JsonMembers::Cons(k, x, xs), JsonMembers::Cons(j, y, ys)) => {
            let ke = crate::text::str_eq(k.as_str(), j.as_str());
            let e = json_eq(&**x, &**y);
            let rest = members_eq(&**xs, &**ys);
            proof {
                let l = seq![(k@, x.model())] + xs.models();
                let m = seq![(j@, y.model())] + ys.models();
                if l == m {
                    assert(l[0] == m[0]);
                    assert(l.drop_first() =~= xs.models());
                    assert(m.drop_first() =~= ys.models());
                }
                if ke && e && rest {
                    assert(l =~= m);
                }
            }
            ke && e && rest
        },
        (JsonMembers::Nil, JsonMembers::Cons(j, y, ys)) => {
            proof {
                assert((seq![(j@, y.model())] + ys.models()).len() > 0);
            }
            false
        },
        (JsonMembers::Cons(k, x, xs), JsonMembers::Nil) => {
            proof {
                assert((seq![(k@, x.model())] + xs.models()).len() > 0);
            }
            false
        },
    }
}

/// The payload of an event about one item: its id under `key`.
pub open spec fn id_event_model(key: Seq<char>, id: u128) -> JsonModel {
    JsonModel::Object(seq![(key, JsonModel::Str(uuid_text(id)))])
}

/// The payload of an event about two items: their ids under `k1` and `k2`.
pub open spec fn id_pair_model(k1: Seq<char>, a: u128, k2: Seq<char>, b: u128) -> JsonModel {
    JsonModel::Object(seq![(k1, JsonModel::Str(uuid_text(a))), (k2, JsonModel::Str(uuid_text(b)))])
}

/// An object with one member: `id` under `key`.
pub fn id_object(key: &str, id: u128) -> (r: JsonValue)
    ensures
        r.model() == id_event_model(key@, id),
{
    let members = vec![(key.to_owned(), JsonValue::from_uuid(id))];
    proof {
        lemma_members_models(members@);
        assert(members@.map_values(|m: (String, JsonValue)| (m.0@, m.1.model())) =~= seq![(key@, JsonModel::Str(uuid_text(id)))]);
    }
    JsonValue::object(members)
}

/// An object with two members: `a` under `k1`, then `b` under `k2`.
pub fn id_pair_object(k1: &str, a: u128, k2: &str, b: u128) -> (r: JsonValue)
    ensures
        r.model() == id_pair_model(k1@, a, k2@, b),
{
    let members = vec![(k1.to_owned(), JsonValue::from_uuid(a)), (k2.to_owned(), JsonValue::from_uuid(b))];
    proof {
        lemma_members_models(members@);
        assert(members@.map_values(|m: (String, JsonValue)| (m.0@, m.1.model()))
            =~= seq![(k1@, JsonModel::Str(uuid_text(a))), (k2@, JsonModel::Str(uuid_text(b)))]);
    }
    JsonValue::object(members)
}

} // verus!
