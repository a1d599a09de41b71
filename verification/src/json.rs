//! JSON values as the OBS WebSocket protocol and the dock API carry them.
//!
//! `JsonValue` is what the library computes on; `Json` is its mathematical
//! view, with text as character sequences. Numbers keep the distinction the
//! protocol reads: whole numbers by value, fractional ones by their IEEE-754
//! bit pattern, which the library only passes along.
use vstd::prelude::*;
use crate::text::{chars_of, str_eq};

verus! {

#[derive(Debug, PartialEq)]
pub enum JsonValue {
    Null,
    Bool(bool),
    Int(i128),
    Float(u64),
    Str(String),
    Array(Vec<JsonValue>),
    Object(Vec<(String, JsonValue)>),
}

#[verifier::ext_equal]
pub enum Json {
    Null,
    Bool(bool),
    Int(int),
    Float(u64),
    Str(Seq<char>),
    Array(Seq<Json>),
    Object(Seq<(Seq<char>, Json)>),
}

pub open spec fn json_view(v: JsonValue) -> Json
    decreases v, 0nat,
{
    match v {
        JsonValue::Null => Json::Null,
        JsonValue::Bool(b) => Json::Bool(b),
        JsonValue::Int(i) => Json::Int(i as int),
        JsonValue::Float(bits) => Json::Float(bits),
        JsonValue::Str(s) => Json::Str(s@),
        JsonValue::Array(items) => Json::Array(items_view(items@)),
        JsonValue::Object(members) => Json::Object(members_view(members@)),
    }
}

pub open spec fn items_view(s: Seq<JsonValue>) -> Seq<Json>
    decreases s, s.len(),
{
    if s.len() == 0 {
        Seq::empty()
    } else {
        items_view(s.drop_last()).push(json_view(s.last()))
    }
}

pub open spec fn members_view(s: Seq<(String, JsonValue)>) -> Seq<(Seq<char>, Json)>
    decreases s, s.len(),
{
    if s.len() == 0 {
        Seq::empty()
    } else {
        members_view(s.drop_last()).push((s.last().0@, json_view(s.last().1)))
    }
}

impl View for JsonValue {
    type V = Json;

    open spec fn view(&self) -> Json {
        json_view(*self)
    }
}

pub proof fn lemma_items_view(s: Seq<JsonValue>)
    ensures
        items_view(s).len() == s.len(),
        forall|i: int| 0 <= i < s.len() ==> #[trigger] items_view(s)[i] == json_view(s[i]),
    decreases s.len(),
{
    if s.len() > 0 {
        lemma_items_view(s.drop_last());
        assert forall|i: int| 0 <= i < s.len() implies #[trigger] items_view(s)[i] == json_view(
            s[i],
        ) by {
            if i < s.len() - 1 {
                assert(s.drop_last()[i] == s[i]);
            }
        }
    }
}

pub proof fn lemma_members_view(s: Seq<(String, JsonValue)>)
    ensures
        members_view(s).len() == s.len(),
        forall|i: int|
            0 <= i < s.len() ==> #[trigger] members_view(s)[i] == (s[i].0@, json_view(s[i].1)),
    decreases s.len(),
{
    if s.len() > 0 {
        lemma_members_view(s.drop_last());
        assert forall|i: int| 0 <= i < s.len() implies #[trigger] members_view(s)[i] == (
            s[i].0@,
            json_view(s[i].1),
        ) by {
            if i < s.len() - 1 {
                assert(s.drop_last()[i] == s[i]);
            }
        }
    }
}

/// The position of the first member named `key`.
pub open spec fn member_index(ms: Seq<(Seq<char>, Json)>, key: Seq<char>) -> Option<int>
    decreases ms.len(),
{
    if ms.len() == 0 {
        None
    } else if ms[0].0 == key {
        Some(0)
    } else {
        match member_index(ms.drop_first(), key) {
            Some(i) => Some(i + 1),
            None => None,
        }
    }
}

pub proof fn lemma_member_index(ms: Seq<(Seq<char>, Json)>, key: Seq<char>)
    ensures
        member_index(ms, key) matches Some(i) ==> 0 <= i < ms.len() && ms[i].0 == key && forall|
            j: int,
        |
            0 <= j < i ==> #[trigger] ms[j].0 != key,
        member_index(ms, key) is None ==> forall|j: int| 0 <= j < ms.len() ==> #[trigger] ms[j].0 != key,
    decreases ms.len(),
{
    if ms.len() > 0 {
        lemma_member_index(ms.drop_first(), key);
        if ms[0].0 != key {
            assert forall|j: int| 1 <= j < ms.len() implies ms[j] == ms.drop_first()[j - 1] by {}
        }
    }
}

impl Json {
    /// `value.get(key)`: the member named `key` of an object.
    pub open spec fn lookup(self, key: Seq<char>) -> Option<Json> {
        match self {
            Json::Object(ms) => match member_index(ms, key) {
                Some(i) => Some(ms[i].1),
                None => None,
            },
            _ => None,
        }
    }

    /// `value[key]`: the member named `key`, or `null` when there is none or
    /// the value is not an object.
    pub open spec fn at(self, key: Seq<char>) -> Json {
        match self.lookup(key) {
            Some(v) => v,
            None => Json::Null,
        }
    }

    pub open spec fn as_str(self) -> Option<Seq<char>> {
        match self {
            Json::Str(s) => Some(s),
            _ => None,
        }
    }

    /// `value.as_str().unwrap_or_default()`.
    pub open spec fn str_or_empty(self) -> Seq<char> {
        match self {
            Json::Str(s) => s,
            _ => Seq::empty(),
        }
    }

    pub open spec fn as_bool(self) -> Option<bool> {
        match self {
            Json::Bool(b) => Some(b),
            _ => None,
        }
    }

    /// A whole number that fits in an `i64`.
    pub open spec fn as_i64(self) -> Option<int> {
        match self {
            Json::Int(i) => if i64::MIN <= i <= i64::MAX {
                Some(i)
            } else {
                None
            },
            _ => None,
        }
    }

    /// A whole number that fits in a `u64`.
    pub open spec fn as_u64(self) -> Option<int> {
        match self {
            Json::Int(i) => if 0 <= i <= u64::MAX {
                Some(i)
            } else {
                None
            },
            _ => None,
        }
    }

    pub open spec fn as_array(self) -> Option<Seq<Json>> {
        match self {
            Json::Array(items) => Some(items),
            _ => None,
        }
    }
}

/// The value a looked-up member stands for: `null` when it is missing.
pub open spec fn or_null(o: Option<&JsonValue>) -> Json {
    match o {
        Some(v) => v@,
        None => Json::Null,
    }
}

/// `value[key]` on a value that may itself be missing (and so `null`),
/// without copying: `None` stands for `null`.
pub fn member_of<'a>(v: Option<&'a JsonValue>, key: &str) -> (res: Option<&'a JsonValue>)
    ensures
        or_null(res) == or_null(v).at(key@),
        res is Some <==> or_null(v).lookup(key@) is Some,
{
    match v {
        Some(x) => x.lookup(key),
        None => None,
    }
}

impl JsonValue {
    /// The member named `key`, if this is an object that has one.
    pub fn lookup(&self, key: &str) -> (res: Option<&JsonValue>)
        ensures
            res matches Some(v) ==> self@.lookup(key@) == Some(v@),
            res is None ==> self@.lookup(key@) is None,
    {
        match self {
            JsonValue::Object(members) => {
                proof {
                    lemma_members_view(members@);
                    lemma_member_index(members_view(members@), key@);
                }
                let ghost ms = members_view(members@);
                let mut i: usize = 0;
                while i < members.len()
                    invariant
                        i <= members@.len(),
                        ms == members_view(members@),
                        self@ == Json::Object(ms),
                        ms.len() == members@.len(),
                        forall|j: int| 0 <= j < members@.len() ==> #[trigger] ms[j] == (members@[j].0@, json_view(members@[j].1)),
                        forall|j: int| 0 <= j < i ==> #[trigger] ms[j].0 != key@,
                    decreases members@.len() - i,
                {
                    if str_eq(members[i].0.as_str(), key) {
                        proof {
                            lemma_member_index(ms, key@);
                            match member_index(ms, key@) {
                                Some(m) => {
                                    if m > i {
                                        assert(ms[i as int].0 == key@);
                                    }
                                },
                                None => {
                                    assert(ms[i as int].0 == key@);
                                },
                            }
                            assert(member_index(ms, key@) == Some(i as int));
                            assert(ms[i as int].1 == json_view(members@[i as int].1));
                        }
                        return Some(&members[i].1);
                    }
                    i = i + 1;
                }
                proof {
                    lemma_member_index(ms, key@);
                    if member_index(ms, key@) is Some {
                        let m = member_index(ms, key@)->0;
                        assert(ms[m].0 == key@);
                    }
                }
                None
            },
            _ => None,
        }
    }

    pub fn as_str(&self) -> (res: Option<&String>)
        ensures
            res matches Some(s) ==> self@.as_str() == Some(s@),
            res is None ==> self@.as_str() is None,
    {
        match self {
            JsonValue::Str(s) => Some(s),
            _ => None,
        }
    }

    pub fn as_bool(&self) -> (res: Option<bool>)
        ensures
            res == self@.as_bool(),
    {
        match self {
            JsonValue::Bool(b) => Some(*b),
            _ => None,
        }
    }

    pub fn as_i64(&self) -> (res: Option<i64>)
        ensures
            res matches Some(v) ==> self@.as_i64() == Some(v as int),
            res is None ==> self@.as_i64() is None,
    {
        match self {
            JsonValue::Int(i) => {
                if i64::MIN as i128 <= *i && *i <= i64::MAX as i128 {
                    Some(*i as i64)
                } else {
                    None
                }
            },
            _ => None,
        }
    }

    pub fn as_u64(&self) -> (res: Option<u64>)
        ensures
            res matches Some(v) ==> self@.as_u64() == Some(v as int),
            res is None ==> self@.as_u64() is None,
    {
        match self {
            JsonValue::Int(i) => {
                if 0 <= *i && *i <= u64::MAX as i128 {
                    Some(*i as u64)
                } else {
                    None
                }
            },
            _ => None,
        }
    }

    pub fn as_array(&self) -> (res: Option<&Vec<JsonValue>>)
        ensures
            res matches Some(items) ==> self@.as_array() == Some(items_view(items@)),
            res is None ==> self@.as_array() is None,
    {
        match self {
            JsonValue::Array(items) => Some(items),
            _ => None,
        }
    }

    /// `value == text`: a string with exactly these characters.
    pub fn is_str(&self, text: &str) -> (res: bool)
        ensures
            res == (self@ == Json::Str(text@)),
    {
        match self {
            JsonValue::Str(s) => str_eq(s.as_str(), text),
            _ => false,
        }
    }

    /// `value.as_str().unwrap_or_default()`, as an owned string.
    pub fn str_or_empty(&self) -> (res: String)
        ensures
            res@ == self@.str_or_empty(),
    {
        match self {
            JsonValue::Str(s) => s.clone(),
            _ => String::new(),
        }
    }

    /// A string value holding `text`.
    pub fn text(text: &str) -> (res: JsonValue)
        ensures
            res@ == Json::Str(text@),
    {
        JsonValue::Str(text.to_owned())
    }

    /// The member named `key` as `value[key]` reads it; `None` stands for
    /// `null`.
    pub fn at(&self, key: &str) -> (res: JsonValue)
        ensures
            res@ == self@.at(key@),
    {
        match self.lookup(key) {
            Some(v) => v.duplicate(),
            None => JsonValue::Null,
        }
    }

    /// A copy of this value.
    #[verifier::loop_isolation(false)]
    pub fn duplicate(&self) -> (res: JsonValue)
        ensures
            res@ == self@,
        decreases self,
    {
        match self {
            JsonValue::Null => JsonValue::Null,
            JsonValue::Bool(b) => JsonValue::Bool(*b),
            JsonValue::Int(i) => JsonValue::Int(*i),
            JsonValue::Float(f) => JsonValue::Float(*f),
            JsonValue::Str(s) => JsonValue::Str(s.clone()),
            JsonValue::Array(items) => {
                let mut out: Vec<JsonValue> = Vec::new();
                let mut i: usize = 0;
                while i < items.len()
                    invariant
                        i <= items@.len(),
                        items_view(out@) == items_view(items@.take(i as int)),
                    decreases items@.len() - i,
                {
                    proof {
                        assert(decreases_to!(*self => *items));
                        assert(decreases_to!(*items => items@));
                        assert(decreases_to!(items@ => items@[i as int]));
                        assert(decreases_to!(*self => items@[i as int]));
                    }
                    let x = items[i].duplicate();
                    let ghost prev = out@;
                    out.push(x);
                    proof {
                        assert(out@.drop_last() =~= prev);
                        assert(items@.take(i as int + 1).drop_last() =~= items@.take(i as int));
                        assert(items_view(out@) == items_view(prev).push(json_view(x)));
                        assert(items_view(items@.take(i as int + 1)) == items_view(
                            items@.take(i as int),
                        ).push(json_view(items@[i as int])));
                    }
                    i = i + 1;
                }
                assert(items@.take(items@.len() as int) =~= items@);
                JsonValue::Array(out)
            },
            JsonValue::Object(members) => {
                let mut out: Vec<(String, JsonValue)> = Vec::new();
                let mut i: usize = 0;
                while i < members.len()
                    invariant
                        i <= members@.len(),
                        members_view(out@) == members_view(members@.take(i as int)),
                    decreases members@.len() - i,
                {
                    proof {
                        assert(decreases_to!(*self => *members));
                        assert(decreases_to!(*members => members@));
                        assert(decreases_to!(members@ => members@[i as int]));
                        assert(decreases_to!(members@[i as int] => members@[i as int].1));
                        assert(decreases_to!(*self => members@[i as int].1));
                    }
                    let x = members[i].1.duplicate();
                    let k = members[i].0.clone();
                    let ghost prev = out@;
                    out.push((k, x));
                    proof {
                        assert(out@.drop_last() =~= prev);
                        assert(members@.take(i as int + 1).drop_last() =~= members@.take(i as int));
                        assert(members_view(out@) == members_view(prev).push((k@, json_view(x))));
                        assert(members_view(members@.take(i as int + 1)) == members_view(
                            members@.take(i as int),
                        ).push((members@[i as int].0@, json_view(members@[i as int].1))));
                    }
                    i = i + 1;
                }
                assert(members@.take(members@.len() as int) =~= members@);
                JsonValue::Object(out)
            },
        }
    }
}

} // verus!
