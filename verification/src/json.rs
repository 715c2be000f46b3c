//! JSON values: the bodies of requests, and the free-form fields that are stored as they come.

use vstd::prelude::*;
use crate::text::{opt_str, same};

verus! {

/// A type whose values can be copied so that the copy means the same.
pub trait Duplicate: View + Sized {
    fn copy(&self) -> (r: Self)
        ensures
            r@ == self@,
    ;
}

impl Duplicate for String {
    fn copy(&self) -> (r: Self) {
        self.clone()
    }
}

/// The meanings of the elements of a sequence.
pub open spec fn views<T: View>(v: Seq<T>) -> Seq<T::V> {
    Seq::new(v.len(), |i: int| v[i]@)
}

/// The meanings of the elements of an optional vector.
pub open spec fn opt_views<T: View>(o: Option<Vec<T>>) -> Option<Seq<T::V>> {
    match o {
        Some(v) => Some(views(v@)),
        None => None,
    }
}

/// A copy of a vector, element by element.
pub fn copy_vec<T: Duplicate>(v: &Vec<T>) -> (r: Vec<T>)
    ensures
        views(r@) == views(v@),
{
    let mut out: Vec<T> = Vec::new();
    let mut i: usize = 0;
    while i < v.len()
        invariant
            i <= v.len(),
            out@.len() == i,
            forall|k: int| 0 <= k < i ==> (#[trigger] out@[k])@ == v@[k]@,
        decreases v.len() - i,
    {
        out.push(v[i].copy());
        i = i + 1;
    }
    assert(views(out@) =~= views(v@));
    out
}

/// One more element is kept by a filter if it passes.
pub proof fn lemma_filter_take<A>(s: Seq<A>, p: spec_fn(A) -> bool, i: int)
    requires
        0 <= i < s.len(),
    ensures
        s.take(i + 1).filter(p) == if p(s[i]) {
            s.take(i).filter(p).push(s[i])
        } else {
            s.take(i).filter(p)
        },
{
    reveal(Seq::filter);
    assert(s.take(i + 1).drop_last() == s.take(i));
}

/// The bits of an IEEE 754 double-precision number: a coordinate in degrees, or a JSON number.
#[derive(Clone, Copy, Debug, PartialEq, Eq, Structural)]
pub struct Double {
    pub bits: u64,
}

/// A JSON number: its value as a non-negative integer and as a signed one, where it has such a
/// value, and the double nearest to it.
#[derive(Clone, Copy, Debug, PartialEq, Eq, Structural)]
pub struct Number {
    pub unsigned: Option<u64>,
    pub signed: Option<i64>,
    pub double: Double,
}

/// A JSON value. The members of an object are found by name; of two members with one name the
/// first counts.
#[derive(Debug, PartialEq, Eq)]
pub enum Json {
    Null,
    Bool(bool),
    Number(Number),
    Text(String),
    Array(Vec<Json>),
    Object(Vec<(String, Json)>),
}

/// What a JSON value means.
pub enum JsonV {
    Null,
    Bool(bool),
    Number(Number),
    Text(Seq<char>),
    Array(Seq<JsonV>),
    Object(Seq<(Seq<char>, JsonV)>),
}

/// The members of an object.
pub type Members = Seq<(Seq<char>, JsonV)>;

impl Json {
    /// The meaning of a value.
    pub open spec fn meaning(self) -> JsonV
        decreases self,
    {
        match self {
            Json::Null => JsonV::Null,
            Json::Bool(b) => JsonV::Bool(b),
            Json::Number(n) => JsonV::Number(n),
            Json::Text(s) => JsonV::Text(s@),
            Json::Array(v) => JsonV::Array(
                Seq::new(
                    v@.len(),
                    |i: int|
                        if 0 <= i < v@.len() {
                            v@[i].meaning()
                        } else {
                            JsonV::Null
                        },
                ),
            ),
            Json::Object(v) => JsonV::Object(
                Seq::new(
                    v@.len(),
                    |i: int|
                        if 0 <= i < v@.len() {
                            (v@[i].0@, v@[i].1.meaning())
                        } else {
                            (Seq::empty(), JsonV::Null)
                        },
                ),
            ),
        }
    }
}

impl View for Json {
    type V = JsonV;

    open spec fn view(&self) -> JsonV {
        self.meaning()
    }
}

/// The meaning of the elements of an array.
pub open spec fn elements(v: Seq<Json>) -> Seq<JsonV> {
    views(v)
}

/// The meaning of the members of an object.
pub open spec fn members(v: Seq<(String, Json)>) -> Members {
    Seq::new(v.len(), |i: int| (v[i].0@, v[i].1@))
}

/// An array means the sequence of what its elements mean.
pub proof fn lemma_array(v: Vec<Json>)
    ensures
        Json::Array(v)@ == JsonV::Array(elements(v@)),
{
    assert(Json::Array(v)@->Array_0 =~= elements(v@));
}

/// An object means the sequence of what its members mean.
pub proof fn lemma_object(v: Vec<(String, Json)>)
    ensures
        Json::Object(v)@ == JsonV::Object(members(v@)),
{
    assert(Json::Object(v)@->Object_0 =~= members(v@));
}

impl Duplicate for Json {
    fn copy(&self) -> (r: Self)
        decreases self,
    {
        match self {
            Json::Null => Json::Null,
            Json::Bool(b) => Json::Bool(*b),
            Json::Number(n) => Json::Number(*n),
            Json::Text(s) => Json::Text(s.clone()),
            Json::Array(v) => {
                let mut out: Vec<Json> = Vec::new();
                let mut i: usize = 0;
                while i < v.len()
                    invariant
                        i <= v.len(),
                        out@.len() == i,
                        *self == Json::Array(*v),
                        forall|k: int| 0 <= k < i ==> (#[trigger] out@[k])@ == v@[k]@,
                    decreases v.len() - i,
                {
                    assert(decreases_to!(self => self->Array_0));
                    assert(decreases_to!(self->Array_0 => self->Array_0@));
                    assert(decreases_to!(self->Array_0@ => self->Array_0@[i as int]));
                    out.push(v[i].copy());
                    i = i + 1;
                }
                proof {
                    lemma_array(out);
                    lemma_array(*v);
                    assert(elements(out@) =~= elements(v@));
                }
                Json::Array(out)
            },
            Json::Object(v) => {
                let mut out: Vec<(String, Json)> = Vec::new();
                let mut i: usize = 0;
                while i < v.len()
                    invariant
                        i <= v.len(),
                        out@.len() == i,
                        *self == Json::Object(*v),
                        forall|k: int|
                            0 <= k < i ==> (#[trigger] out@[k]).0@ == v@[k].0@ && out@[k].1@
                                == v@[k].1@,
                    decreases v.len() - i,
                {
                    assert(decreases_to!(self => self->Object_0));
                    assert(decreases_to!(self->Object_0 => self->Object_0@));
                    assert(decreases_to!(self->Object_0@ => self->Object_0@[i as int]));
                    assert(decreases_to!(self->Object_0@[i as int] => self->Object_0@[i as int].1));
                    out.push((v[i].0.clone(), v[i].1.copy()));
                    i = i + 1;
                }
                proof {
                    lemma_object(out);
                    lemma_object(*v);
                    assert(members(out@) =~= members(v@));
                }
                Json::Object(out)
            },
        }
    }
}

/// The value of the first member with the given name.
pub open spec fn lookup(o: Members, key: Seq<char>) -> Option<JsonV>
    decreases o.len(),
{
    if o.len() == 0 {
        None
    } else if o[0].0 == key {
        Some(o[0].1)
    } else {
        lookup(o.drop_first(), key)
    }
}

/// The members with the given one put in the place of the first of that name, or at the end.
pub open spec fn with_member(o: Members, key: Seq<char>, value: JsonV) -> Members
    decreases o.len(),
{
    if o.len() == 0 {
        seq![(key, value)]
    } else if o[0].0 == key {
        seq![(key, value)] + o.drop_first()
    } else {
        seq![o[0]] + with_member(o.drop_first(), key, value)
    }
}

/// The members with the given one added, unless there is one of that name.
pub open spec fn with_default(o: Members, key: Seq<char>, value: JsonV) -> Members {
    if lookup(o, key) is Some {
        o
    } else {
        o.push((key, value))
    }
}

/// A member that was put is found, and no other member changes.
pub proof fn lemma_with_member(o: Members, key: Seq<char>, value: JsonV, other: Seq<char>)
    ensures
        lookup(with_member(o, key, value), key) == Some(value),
        other != key ==> lookup(with_member(o, key, value), other) == lookup(o, other),
    decreases o.len(),
{
    reveal_with_fuel(lookup, 2);
    let w = with_member(o, key, value);
    if o.len() > 0 {
        lemma_with_member(o.drop_first(), key, value, other);
        assert(w.drop_first() =~= if o[0].0 == key {
            o.drop_first()
        } else {
            with_member(o.drop_first(), key, value)
        });
    } else {
        assert(w.drop_first() =~= Seq::empty());
    }
}

/// A member that was added by default is found, and no other member changes.
pub proof fn lemma_with_default(o: Members, key: Seq<char>, value: JsonV, other: Seq<char>)
    ensures
        lookup(with_default(o, key, value), key) == Some(
            match lookup(o, key) {
                Some(v) => v,
                None => value,
            },
        ),
        other != key ==> lookup(with_default(o, key, value), other) == lookup(o, other),
    decreases o.len(),
{
    if lookup(o, key) is None {
        lemma_lookup_push(o, key, value, key);
        lemma_lookup_push(o, key, value, other);
    }
}

/// A member at the end is found if no earlier one has its name.
proof fn lemma_lookup_push(o: Members, key: Seq<char>, value: JsonV, other: Seq<char>)
    ensures
        lookup(o.push((key, value)), other) == match lookup(o, other) {
            Some(v) => Some(v),
            None => if other == key {
                Some(value)
            } else {
                None
            },
        },
    decreases o.len(),
{
    reveal_with_fuel(lookup, 2);
    let w = o.push((key, value));
    if o.len() > 0 {
        lemma_lookup_push(o.drop_first(), key, value, other);
        assert(w.drop_first() =~= o.drop_first().push((key, value)));
    } else {
        assert(w.drop_first() =~= Seq::empty());
    }
}

/// The member of a value with the given name; a value that is no object has none.
pub open spec fn member(v: JsonV, key: Seq<char>) -> Option<JsonV> {
    match v {
        JsonV::Object(o) => lookup(o, key),
        _ => None,
    }
}

/// The text that a value is.
pub open spec fn as_text(v: JsonV) -> Option<Seq<char>> {
    match v {
        JsonV::Text(s) => Some(s),
        _ => None,
    }
}

/// The text that an optional value is.
pub open spec fn opt_as_text(v: Option<JsonV>) -> Option<Seq<char>> {
    match v {
        Some(x) => as_text(x),
        None => None,
    }
}

/// The text that the member with the given name is.
pub open spec fn text_member(v: JsonV, key: Seq<char>) -> Option<Seq<char>> {
    opt_as_text(member(v, key))
}

/// The text of the member with the given name, or else the given text.
pub open spec fn text_or(v: JsonV, key: Seq<char>, otherwise: Seq<char>) -> Seq<char> {
    match text_member(v, key) {
        Some(s) => s,
        None => otherwise,
    }
}

/// The non-negative integer that the member with the given name is.
pub open spec fn uint_member(v: JsonV, key: Seq<char>) -> Option<u64> {
    match member(v, key) {
        Some(JsonV::Number(n)) => n.unsigned,
        _ => None,
    }
}

/// The double that the member with the given name is.
pub open spec fn double_member(v: JsonV, key: Seq<char>) -> Option<Double> {
    match member(v, key) {
        Some(JsonV::Number(n)) => Some(n.double),
        _ => None,
    }
}

/// Whether the member with the given name is `true`.
pub open spec fn true_member(v: JsonV, key: Seq<char>) -> bool {
    member(v, key) == Some(JsonV::Bool(true))
}

/// An optional value, seen as its meaning.
pub open spec fn opt_json(o: Option<&Json>) -> Option<JsonV> {
    match o {
        Some(v) => Some(v@),
        None => None,
    }
}

impl Json {
    /// The member with the given name.
    pub fn get(&self, key: &str) -> (r: Option<&Json>)
        ensures
            opt_json(r) == member(self@, key@),
    {
        match self {
            Json::Object(v) => {
                proof {
                    lemma_object(*v);
                }
                let ghost o = members(v@);
                assert(o.skip(0) == o);
                let mut i: usize = 0;
                while i < v.len()
                    invariant
                        i <= v.len(),
                        o == members(v@),
                        member(self@, key@) == lookup(o, key@),
                        lookup(o, key@) == lookup(o.skip(i as int), key@),
                    decreases v.len() - i,
                {
                    assert(o.skip(i as int)[0] == o[i as int]);
                    if same(v[i].0.as_str(), key) {
                        return Some(&v[i].1);
                    }
                    assert(o.skip(i as int).drop_first() == o.skip(i + 1));
                    i = i + 1;
                }
                None
            },
            _ => None,
        }
    }

    /// The text that this value is.
    pub fn as_str(&self) -> (r: Option<&str>)
        ensures
            opt_str(r) == as_text(self@),
    {
        match self {
            Json::Text(s) => Some(s.as_str()),
            _ => None,
        }
    }

    /// Whether this value is `null`.
    pub fn is_null(&self) -> (r: bool)
        ensures
            r == (self@ is Null),
    {
        matches!(self, Json::Null)
    }

    /// The text of the member with the given name.
    pub fn get_str(&self, key: &str) -> (r: Option<&str>)
        ensures
            opt_str(r) == text_member(self@, key@),
    {
        match self.get(key) {
            Some(v) => v.as_str(),
            None => None,
        }
    }

    /// The text of the member with the given name, or else the given text.
    pub fn get_str_or<'a>(&'a self, key: &str, otherwise: &'a str) -> (r: &'a str)
        ensures
            r@ == text_or(self@, key@, otherwise@),
    {
        match self.get_str(key) {
            Some(s) => s,
            None => otherwise,
        }
    }

    /// The non-negative integer of the member with the given name.
    pub fn get_u64(&self, key: &str) -> (r: Option<u64>)
        ensures
            r == uint_member(self@, key@),
    {
        match self.get(key) {
            Some(Json::Number(n)) => n.unsigned,
            _ => None,
        }
    }

    /// The double of the member with the given name.
    pub fn get_double(&self, key: &str) -> (r: Option<Double>)
        ensures
            r == double_member(self@, key@),
    {
        match self.get(key) {
            Some(Json::Number(n)) => Some(n.double),
            _ => None,
        }
    }

    /// Whether the member with the given name is `true`.
    pub fn get_true(&self, key: &str) -> (r: bool)
        ensures
            r == true_member(self@, key@),
    {
        match self.get(key) {
            Some(Json::Bool(b)) => *b,
            _ => false,
        }
    }
}

/// A value with the given member, if it is an object.
pub open spec fn put(v: JsonV, key: Seq<char>, value: JsonV) -> JsonV {
    match v {
        JsonV::Object(o) => JsonV::Object(with_member(o, key, value)),
        other => other,
    }
}

/// A value with the given member, if it is an object that has none of that name.
pub open spec fn put_default(v: JsonV, key: Seq<char>, value: JsonV) -> JsonV {
    match v {
        JsonV::Object(o) => JsonV::Object(with_default(o, key, value)),
        other => other,
    }
}

/// A copy of a value with the given member, if it is an object.
pub fn with(v: &Json, key: &str, value: Json) -> (r: Json)
    ensures
        r@ == put(v@, key@, value@),
{
    match v {
        Json::Object(o) => {
            let ghost all = members(o@);
            let ghost meaning = value@;
            proof {
                lemma_object(*o);
            }
            let mut out: Vec<(String, Json)> = Vec::new();
            let mut i: usize = 0;
            assert(all.skip(0) == all);
            assert(members(out@) + with_member(all.skip(0), key@, meaning) == with_member(
                all,
                key@,
                meaning,
            ));
            while i < o.len() && !same(o[i].0.as_str(), key)
                invariant
                    i <= o.len(),
                    all == members(o@),
                    members(out@) + with_member(all.skip(i as int), key@, meaning) == with_member(
                        all,
                        key@,
                        meaning,
                    ),
                decreases o.len() - i,
            {
                let ghost before = members(out@);
                let ghost rest = all.skip(i as int);
                assert(rest[0] == all[i as int]);
                assert(rest.drop_first() == all.skip(i + 1));
                out.push((o[i].0.clone(), o[i].1.copy()));
                assert(members(out@) =~= before.push(all[i as int]));
                assert(before.push(all[i as int]) + with_member(all.skip(i + 1), key@, meaning)
                    =~= before + (seq![rest[0]] + with_member(all.skip(i + 1), key@, meaning)));
                i = i + 1;
            }
            let ghost rest = all.skip(i as int);
            let ghost before = members(out@);
            out.push((key.to_owned(), value));
            assert(members(out@) =~= before.push((key@, meaning)));
            if i < o.len() {
                assert(rest[0] == all[i as int]);
                assert(rest.drop_first() == all.skip(i + 1));
                i = i + 1;
            } else {
                assert(rest =~= Seq::empty());
            }
            assert(members(out@) + all.skip(i as int) =~= with_member(all, key@, meaning));
            while i < o.len()
                invariant
                    i <= o.len(),
                    all == members(o@),
                    members(out@) + all.skip(i as int) == with_member(all, key@, meaning),
                decreases o.len() - i,
            {
                let ghost so_far = members(out@);
                out.push((o[i].0.clone(), o[i].1.copy()));
                assert(members(out@) =~= so_far.push(all[i as int]));
                assert(so_far.push(all[i as int]) + all.skip(i + 1) =~= so_far + all.skip(
                    i as int,
                ));
                i = i + 1;
            }
            assert(members(out@) =~= with_member(all, key@, meaning));
            proof {
                lemma_object(out);
            }
            Json::Object(out)
        },
        other => other.copy(),
    }
}

/// A copy of a value with the given member, if it is an object that has none of that name.
pub fn with_missing(v: &Json, key: &str, value: Json) -> (r: Json)
    ensures
        r@ == put_default(v@, key@, value@),
{
    let found = v.get(key).is_some();
    if found {
        v.copy()
    } else {
        match v {
            Json::Object(o) => {
                proof {
                    lemma_object(*o);
                }
                let ghost all = members(o@);
                let ghost meaning = value@;
                let mut out: Vec<(String, Json)> = Vec::new();
                let mut i: usize = 0;
                while i < o.len()
                    invariant
                        i <= o.len(),
                        all == members(o@),
                        members(out@) == all.take(i as int),
                    decreases o.len() - i,
                {
                    let ghost so_far = members(out@);
                    out.push((o[i].0.clone(), o[i].1.copy()));
                    assert(members(out@) =~= so_far.push(all[i as int]));
                    assert(so_far.push(all[i as int]) =~= all.take(i + 1));
                    i = i + 1;
                }
                assert(all.take(i as int) =~= all);
                out.push((key.to_owned(), value));
                assert(members(out@) =~= all.push((key@, meaning)));
                proof {
                    lemma_object(out);
                }
                Json::Object(out)
            },
            other => other.copy(),
        }
    }
}

/// An empty list.
pub fn empty_list() -> (r: Json)
    ensures
        r@ == JsonV::Array(Seq::empty()),
{
    let v: Vec<Json> = Vec::new();
    proof {
        lemma_array(v);
        assert(elements(v@) =~= Seq::empty());
    }
    Json::Array(v)
}

/// A member that was put into an object is found, and the others are as before.
pub proof fn lemma_put(v: JsonV, key: Seq<char>, value: JsonV, other: Seq<char>)
    requires
        v is Object,
    ensures
        put(v, key, value) is Object,
        member(put(v, key, value), key) == Some(value),
        other != key ==> member(put(v, key, value), other) == member(v, other),
{
    lemma_with_member(v->Object_0, key, value, other);
}

/// A member that was added is found if there was none, and the others are as before.
pub proof fn lemma_put_default(v: JsonV, key: Seq<char>, value: JsonV, other: Seq<char>)
    requires
        v is Object,
    ensures
        put_default(v, key, value) is Object,
        member(put_default(v, key, value), key) == Some(
            match member(v, key) {
                Some(x) => x,
                None => value,
            },
        ),
        other != key ==> member(put_default(v, key, value), other) == member(v, other),
{
    lemma_with_default(v->Object_0, key, value, other);
}

/// The member of an object is the first one of that name, and has the value that stands beside the
/// name.
pub proof fn law_the_first_member_counts(o: Members, key: Seq<char>, i: int)
    requires
        0 <= i <= o.len(),
        forall|j: int| 0 <= j < i ==> (#[trigger] o[j]).0 != key,
        i < o.len() ==> o[i].0 == key,
    ensures
        i < o.len() ==> member(JsonV::Object(o), key) == Some(o[i].1),
        i == o.len() ==> member(JsonV::Object(o), key) is None,
    decreases o.len(),
{
    if o.len() > 0 && i > 0 {
        assert(o[0].0 != key);
        let rest = o.drop_first();
        assert forall|j: int| 0 <= j < i - 1 implies (#[trigger] rest[j]).0 != key by {
            assert(rest[j] == o[j + 1]);
        }
        law_the_first_member_counts(rest, key, i - 1);
    }
}

/// A member is read as what it is: a text as a text, a number as a number; what is of another type,
/// or missing, is not read at all.
pub proof fn law_members_are_read_as_what_they_are(v: JsonV, key: Seq<char>, otherwise: Seq<char>)
    ensures
        match member(v, key) {
            Some(JsonV::Text(s)) => text_member(v, key) == Some(s) && text_or(v, key, otherwise)
                == s,
            _ => text_member(v, key) is None && text_or(v, key, otherwise) == otherwise,
        },
        match member(v, key) {
            Some(JsonV::Number(n)) => uint_member(v, key) == n.unsigned && double_member(v, key)
                == Some(n.double),
            _ => uint_member(v, key) is None && double_member(v, key) is None,
        },
        true_member(v, key) <==> member(v, key) == Some(JsonV::Bool(true)),
        v !is Object ==> member(v, key) is None,
{
}

/// A value means what it is, element by element and member by member.
pub proof fn law_values_mean_what_they_are(v: Json)
    ensures
        v is Null <==> v@ is Null,
        v matches Json::Bool(b) ==> v@ == JsonV::Bool(b),
        v matches Json::Number(n) ==> v@ == JsonV::Number(n),
        v matches Json::Text(s) ==> v@ == JsonV::Text(s@),
        v matches Json::Array(a) ==> (v@ matches JsonV::Array(m) && m.len() == a@.len() && forall|
            i: int,
        |
            0 <= i < m.len() ==> #[trigger] m[i] == a@[i]@),
        v matches Json::Object(a) ==> (v@ matches JsonV::Object(m) && m.len() == a@.len() && forall|
            i: int,
        |
            0 <= i < m.len() ==> #[trigger] m[i] == (a@[i].0@, a@[i].1@)),
{
    if let Json::Array(a) = v {
        lemma_array(a);
    }
    if let Json::Object(a) = v {
        lemma_object(a);
    }
}

} // verus!
