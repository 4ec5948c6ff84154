//! JSON values.
use crate::text::same;
use vstd::prelude::*;
use vstd::string::*;

verus! {

/// A JSON value. A number is a `u64`, a negative `i64`, or the text of any other number; an
/// object lists its members in the order in which they are walked.
#[derive(Debug, PartialEq)]
pub enum Json {
    Null,
    Bool(bool),
    Unsigned(u64),
    Negative(i64),
    Float(String),
    Text(String),
    Array(Vec<Json>),
    Object(Vec<(String, Json)>),
}

/// What a JSON value says.
pub enum JsonView {
    Null,
    Bool(bool),
    Int(int),
    Float(Seq<char>),
    Text(Seq<char>),
    Array(Seq<JsonView>),
    Object(Seq<(Seq<char>, JsonView)>),
}

pub open spec fn json_view(j: Json) -> JsonView
    decreases j,
{
    match j {
        Json::Null => JsonView::Null,
        Json::Bool(b) => JsonView::Bool(b),
        Json::Unsigned(n) => JsonView::Int(n as int),
        Json::Negative(n) => JsonView::Int(n as int),
        Json::Float(t) => JsonView::Float(t@),
        Json::Text(t) => JsonView::Text(t@),
        Json::Array(v) => JsonView::Array(
            Seq::new(
                v@.len(),
                |i: int|
                    if 0 <= i < v@.len() {
                        json_view(v@[i])
                    } else {
                        JsonView::Null
                    },
            ),
        ),
        Json::Object(v) => JsonView::Object(
            Seq::new(
                v@.len(),
                |i: int|
                    if 0 <= i < v@.len() {
                        (v@[i].0@, json_view(v@[i].1))
                    } else {
                        (seq![], JsonView::Null)
                    },
            ),
        ),
    }
}

impl View for Json {
    type V = JsonView;

    open spec fn view(&self) -> JsonView {
        json_view(*self)
    }
}

impl DeepView for Json {
    type V = JsonView;

    open spec fn deep_view(&self) -> JsonView {
        json_view(*self)
    }
}

/// The first member of that name.
pub open spec fn member(members: Seq<(Seq<char>, JsonView)>, key: Seq<char>) -> Option<JsonView>
    decreases members.len(),
{
    if members.len() == 0 {
        None
    } else if members[0].0 == key {
        Some(members[0].1)
    } else {
        member(members.drop_first(), key)
    }
}

impl JsonView {
    /// The member of that name; `None` for what is not an object.
    pub open spec fn get(self, key: Seq<char>) -> Option<JsonView> {
        match self {
            JsonView::Object(members) => member(members, key),
            _ => None,
        }
    }

    pub open spec fn text(self) -> Option<Seq<char>> {
        match self {
            JsonView::Text(t) => Some(t),
            _ => None,
        }
    }

    pub open spec fn items(self) -> Option<Seq<JsonView>> {
        match self {
            JsonView::Array(items) => Some(items),
            _ => None,
        }
    }

    pub open spec fn members(self) -> Option<Seq<(Seq<char>, JsonView)>> {
        match self {
            JsonView::Object(members) => Some(members),
            _ => None,
        }
    }

    pub open spec fn boolean(self) -> Option<bool> {
        match self {
            JsonView::Bool(b) => Some(b),
            _ => None,
        }
    }

    pub open spec fn int64(self) -> Option<int> {
        match self {
            JsonView::Int(n) => if n <= i64::MAX {
                Some(n)
            } else {
                None
            },
            _ => None,
        }
    }

    pub open spec fn unsigned(self) -> Option<int> {
        match self {
            JsonView::Int(n) => if n >= 0 {
                Some(n)
            } else {
                None
            },
            _ => None,
        }
    }
}

/// The member of that name, where there is a value to look in.
pub open spec fn at(v: Option<JsonView>, key: Seq<char>) -> Option<JsonView> {
    match v {
        Some(v) => v.get(key),
        None => None,
    }
}

pub open spec fn text_of(v: Option<JsonView>) -> Option<Seq<char>> {
    match v {
        Some(v) => v.text(),
        None => None,
    }
}

pub open spec fn items_of(v: Option<JsonView>) -> Option<Seq<JsonView>> {
    match v {
        Some(v) => v.items(),
        None => None,
    }
}

pub open spec fn members_of(v: Option<JsonView>) -> Option<Seq<(Seq<char>, JsonView)>> {
    match v {
        Some(v) => v.members(),
        None => None,
    }
}

pub open spec fn bool_of(v: Option<JsonView>) -> Option<bool> {
    match v {
        Some(v) => v.boolean(),
        None => None,
    }
}

pub open spec fn i64_of(v: Option<JsonView>) -> Option<int> {
    match v {
        Some(v) => v.int64(),
        None => None,
    }
}

pub open spec fn u64_of(v: Option<JsonView>) -> Option<int> {
    match v {
        Some(v) => v.unsigned(),
        None => None,
    }
}

/// The text, unless it is empty.
pub open spec fn filled(t: Option<Seq<char>>) -> Option<Seq<char>> {
    match t {
        Some(t) => if t.len() > 0 {
            Some(t)
        } else {
            None
        },
        None => None,
    }
}

/// The text, or `default` where there is none.
pub open spec fn or_text(t: Option<Seq<char>>, default: Seq<char>) -> Seq<char> {
    match t {
        Some(t) => t,
        None => default,
    }
}

pub open spec fn or_int(n: Option<int>, default: int) -> int {
    match n {
        Some(n) => n,
        None => default,
    }
}

/// The items, or none where there is no array.
pub open spec fn or_none(items: Option<Seq<JsonView>>) -> Seq<JsonView> {
    match items {
        Some(items) => items,
        None => seq![],
    }
}

pub open spec fn opt<T: View>(o: Option<T>) -> Option<T::V> {
    match o {
        Some(v) => Some(v@),
        None => None,
    }
}

impl Json {
    pub fn get<'a>(&'a self, key: &str) -> (r: Option<&'a Json>)
        ensures
            opt(r) == self@.get(key@),
    {
        match self {
            Json::Object(members) => {
                let n = members.len();
                let ghost all = self@->Object_0;
                assert(all.skip(0) =~= all);
                let mut i: usize = 0;
                while i < n
                    invariant
                        i <= n == members@.len(),
                        all.len() == n,
                        self@ == JsonView::Object(all),
                        forall|k: int| 0 <= k < n ==> #[trigger] all[k] == (members@[k].0@, members@[k].1@),
                        member(all, key@) == member(all.skip(i as int), key@),
                    decreases n - i,
                {
                    assert(all.skip(i as int)[0] == all[i as int]);
                    assert(all.skip(i as int).drop_first() =~= all.skip(i + 1));
                    assert(all[i as int].1 == members@[i as int].1@);
                    if same(members[i].0.as_str(), key) {
                        return Some(&members[i].1);
                    }
                    i += 1;
                }
                None
            },
            _ => None,
        }
    }

    pub fn as_str<'a>(&'a self) -> (r: Option<&'a str>)
        ensures
            opt(r) == self@.text(),
    {
        match self {
            Json::Text(t) => Some(t.as_str()),
            _ => None,
        }
    }

    pub fn as_array<'a>(&'a self) -> (r: Option<&'a Vec<Json>>)
        ensures
            match r {
                Some(v) => self@.items() == Some(v.deep_view()),
                None => self@.items() is None,
            },
    {
        match self {
            Json::Array(v) => {
                assert(self@->Array_0 =~= v.deep_view());
                Some(v)
            },
            _ => None,
        }
    }

    pub fn as_object<'a>(&'a self) -> (r: Option<&'a Vec<(String, Json)>>)
        ensures
            match r {
                Some(v) => self@.members() == Some(v.deep_view()),
                None => self@.members() is None,
            },
    {
        match self {
            Json::Object(v) => {
                assert(self@->Object_0 =~= v.deep_view());
                Some(v)
            },
            _ => None,
        }
    }

    pub fn as_bool(&self) -> (r: Option<bool>)
        ensures
            r == self@.boolean(),
    {
        match self {
            Json::Bool(b) => Some(*b),
            _ => None,
        }
    }

    pub fn as_i64(&self) -> (r: Option<i64>)
        ensures
            match r {
                Some(n) => self@.int64() == Some(n as int),
                None => self@.int64() is None,
            },
    {
        match self {
            Json::Unsigned(n) => if *n <= i64::MAX as u64 {
                Some(*n as i64)
            } else {
                None
            },
            Json::Negative(n) => Some(*n),
            _ => None,
        }
    }

    pub fn as_u64(&self) -> (r: Option<u64>)
        ensures
            match r {
                Some(n) => self@.unsigned() == Some(n as int),
                None => self@.unsigned() is None,
            },
    {
        match self {
            Json::Unsigned(n) => Some(*n),
            Json::Negative(n) => if *n >= 0 {
                Some(*n as u64)
            } else {
                None
            },
            _ => None,
        }
    }

    pub fn is_null(&self) -> (r: bool)
        ensures
            r == (self@ == JsonView::Null),
    {
        match self {
            Json::Null => true,
            _ => false,
        }
    }

    /// A value that says the same.
    pub fn copy(&self) -> (r: Json)
        ensures
            r@ == self@,
        decreases self,
    {
        match self {
            Json::Null => Json::Null,
            Json::Bool(b) => Json::Bool(*b),
            Json::Unsigned(n) => Json::Unsigned(*n),
            Json::Negative(n) => Json::Negative(*n),
            Json::Float(t) => Json::Float(t.clone()),
            Json::Text(t) => Json::Text(t.clone()),
            Json::Array(v) => {
                let mut out: Vec<Json> = Vec::new();
                for i in 0..v.len()
                    invariant
                        self is Array && self->Array_0 == *v,
                        out@.len() == i,
                        forall|k: int| 0 <= k < i ==> (#[trigger] out@[k])@ == v@[k]@,
                {
                    assert(decreases_to!(*v => v@[i as int]));
                    out.push(v[i].copy());
                }
                let r = Json::Array(out);
                assert(r@->Array_0 =~= self@->Array_0);
                r
            },
            Json::Object(v) => {
                let mut out: Vec<(String, Json)> = Vec::new();
                for i in 0..v.len()
                    invariant
                        self is Object && self->Object_0 == *v,
                        out@.len() == i,
                        forall|k: int| 0 <= k < i ==> (#[trigger] out@[k]).0@ == v@[k].0@ && out@[k].1@ == v@[k].1@,
                {
                    assert(decreases_to!(*v => v@[i as int]));
                    out.push((v[i].0.clone(), v[i].1.copy()));
                }
                let r = Json::Object(out);
                assert(r@->Object_0 =~= self@->Object_0);
                r
            },
        }
    }
}

pub fn get_at<'a>(v: Option<&'a Json>, key: &str) -> (r: Option<&'a Json>)
    ensures
        opt(r) == at(opt(v), key@),
{
    match v {
        Some(v) => v.get(key),
        None => None,
    }
}

pub fn str_of<'a>(v: Option<&'a Json>) -> (r: Option<&'a str>)
    ensures
        opt(r) == text_of(opt(v)),
{
    match v {
        Some(v) => v.as_str(),
        None => None,
    }
}

pub fn array_of<'a>(v: Option<&'a Json>) -> (r: Option<&'a Vec<Json>>)
    ensures
        match r {
            Some(items) => items_of(opt(v)) == Some(items.deep_view()),
            None => items_of(opt(v)) is None,
        },
{
    match v {
        Some(v) => v.as_array(),
        None => None,
    }
}

pub fn object_of<'a>(v: Option<&'a Json>) -> (r: Option<&'a Vec<(String, Json)>>)
    ensures
        match r {
            Some(members) => members_of(opt(v)) == Some(members.deep_view()),
            None => members_of(opt(v)) is None,
        },
{
    match v {
        Some(v) => v.as_object(),
        None => None,
    }
}

pub fn boolean_of(v: Option<&Json>) -> (r: Option<bool>)
    ensures
        r == bool_of(opt(v)),
{
    match v {
        Some(v) => v.as_bool(),
        None => None,
    }
}

pub fn int_of(v: Option<&Json>) -> (r: Option<i64>)
    ensures
        match r {
            Some(n) => i64_of(opt(v)) == Some(n as int),
            None => i64_of(opt(v)) is None,
        },
{
    match v {
        Some(v) => v.as_i64(),
        None => None,
    }
}

pub fn unsigned_of(v: Option<&Json>) -> (r: Option<u64>)
    ensures
        match r {
            Some(n) => u64_of(opt(v)) == Some(n as int),
            None => u64_of(opt(v)) is None,
        },
{
    match v {
        Some(v) => v.as_u64(),
        None => None,
    }
}

pub fn non_empty<'a>(t: Option<&'a str>) -> (r: Option<&'a str>)
    ensures
        opt(r) == filled(opt(t)),
{
    match t {
        Some(t) => if t.is_empty() {
            None
        } else {
            Some(t)
        },
        None => None,
    }
}

/// Whether there is a text and it is `wanted`.
pub fn is_text(t: Option<&str>, wanted: &str) -> (r: bool)
    ensures
        r == (opt(t) == Some(wanted@)),
{
    match t {
        Some(t) => same(t, wanted),
        None => false,
    }
}

/// The text, or `default` where there is none.
pub fn text_or<'a>(t: Option<&'a str>, default: &'a str) -> (r: &'a str)
    ensures
        r@ == or_text(opt(t), default@),
{
    match t {
        Some(t) => t,
        None => default,
    }
}

/// A text as a JSON value.
pub fn json_text(t: &str) -> (r: Json)
    ensures
        r@ == JsonView::Text(t@),
{
    Json::Text(t.to_owned())
}

/// Texts as a JSON array.
pub fn json_texts(items: &Vec<String>) -> (r: Json)
    ensures
        r@ == JsonView::Array(Seq::new(items@.len(), |i: int| JsonView::Text(items@[i]@))),
{
    let mut out: Vec<Json> = Vec::new();
    for i in 0..items.len()
        invariant
            out@.len() == i,
            forall|k: int| 0 <= k < i ==> (#[trigger] out@[k])@ == JsonView::Text(items@[k]@),
    {
        out.push(Json::Text(items[i].clone()));
    }
    let r = Json::Array(out);
    assert(r@->Array_0 =~= Seq::new(items@.len(), |i: int| JsonView::Text(items@[i]@)));
    r
}

/// An object of the given members.
pub fn json_object(members: Vec<(&str, Json)>) -> (r: Json)
    ensures
        r@ == JsonView::Object(members.deep_view()),
{
    let ghost all = members.deep_view();
    let mut out: Vec<(String, Json)> = Vec::new();
    for member in it: members
        invariant
            it.seq() == members@,
            all == members.deep_view(),
            out.deep_view() =~= all.take(it.index()),
    {
        let ghost before = out.deep_view();
        let (key, value) = member;
        let ghost entry = (key@, value@);
        out.push((key.to_owned(), value));
        assert(out.deep_view() =~= before.push(entry));
    }
    assert(all.take(all.len() as int) =~= all);
    let r = Json::Object(out);
    assert(r@->Object_0 =~= all);
    r
}

/// The name of a value's type.
pub open spec fn type_text(v: JsonView) -> Seq<char> {
    match v {
        JsonView::Null => "null"@,
        JsonView::Bool(_) => "boolean"@,
        JsonView::Int(_) => "number"@,
        JsonView::Float(_) => "number"@,
        JsonView::Text(_) => "string"@,
        JsonView::Array(_) => "array"@,
        JsonView::Object(_) => "object"@,
    }
}

/// The name of a value's type.
pub fn type_label(v: &Json) -> (r: &'static str)
    ensures
        r@ == type_text(v@),
{
    match v {
        Json::Null => "null",
        Json::Bool(_) => "boolean",
        Json::Unsigned(_) => "number",
        Json::Negative(_) => "number",
        Json::Float(_) => "number",
        Json::Text(_) => "string",
        Json::Array(_) => "array",
        Json::Object(_) => "object",
    }
}

/// How many items, members or characters a value has; other values have no length.
pub open spec fn length_of(v: JsonView) -> Option<int> {
    match v {
        JsonView::Text(t) => Some(t.len() as int),
        JsonView::Array(items) => Some(items.len() as int),
        JsonView::Object(members) => Some(members.len() as int),
        _ => None,
    }
}

/// How many items, members or characters a value has; other values have no length.
pub fn value_length(v: &Json) -> (r: Option<usize>)
    ensures
        match r {
            Some(n) => length_of(v@) == Some(n as int),
            None => length_of(v@) is None,
        },
{
    match v {
        Json::Text(t) => Some(t.as_str().unicode_len()),
        Json::Array(items) => Some(items.len()),
        Json::Object(members) => Some(members.len()),
        _ => None,
    }
}

/// What stands at a member of a member.
pub open spec fn inner(v: JsonView, outer_key: Seq<char>, key: Seq<char>) -> Option<JsonView> {
    match v.get(outer_key) {
        Some(w) => w.get(key),
        None => None,
    }
}

/// No text, or an empty one.
pub open spec fn no_text(v: Option<JsonView>) -> bool {
    match v {
        Some(JsonView::Text(t)) => t.len() == 0,
        _ => true,
    }
}

/// The member of a name is the first of that name, and there is none only where no member has it.
pub proof fn first_member_counts(members: Seq<(Seq<char>, JsonView)>, key: Seq<char>, i: int)
    ensures
        0 <= i < members.len() && members[i].0 == key && (forall|k: int| 0 <= k < i ==> (#[trigger] members[k]).0 != key)
            ==> JsonView::Object(members).get(key) == Some(members[i].1),
        (forall|k: int| 0 <= k < members.len() ==> (#[trigger] members[k]).0 != key) ==> JsonView::Object(members).get(key)
            is None,
    decreases members.len(),
{
    if members.len() > 0 {
        let rest = members.drop_first();
        first_member_counts(rest, key, i - 1);
        if i > 0 && i < members.len() && members[i].0 == key && (forall|k: int|
            0 <= k < i ==> (#[trigger] members[k]).0 != key) {
            assert(members[0].0 != key);
            assert(rest[i - 1] == members[i]);
            assert forall|k: int| 0 <= k < i - 1 implies (#[trigger] rest[k]).0 != key by {
                assert(members[k + 1].0 != key);
            }
        }
        if forall|k: int| 0 <= k < members.len() ==> (#[trigger] members[k]).0 != key {
            assert(members[0].0 != key);
            assert forall|k: int| 0 <= k < rest.len() implies (#[trigger] rest[k]).0 != key by {
                assert(members[k + 1].0 != key);
            }
        }
    }
}

/// A value has the length of its text, list or members, and nothing else has one.
pub proof fn lengths_count_the_parts(v: JsonView, t: Seq<char>, items: Seq<JsonView>, members: Seq<(Seq<char>, JsonView)>)
    ensures
        v == JsonView::Text(t) ==> length_of(v) == Some(t.len() as int) && type_text(v) == "string"@,
        v == JsonView::Array(items) ==> length_of(v) == Some(items.len() as int) && type_text(v) == "array"@,
        v == JsonView::Object(members) ==> length_of(v) == Some(members.len() as int) && type_text(v) == "object"@,
        v is Null ==> length_of(v) is None && type_text(v) == "null"@,
        v is Bool ==> length_of(v) is None && type_text(v) == "boolean"@,
        v is Int || v is Float ==> length_of(v) is None && type_text(v) == "number"@,
{
}

/// The text that stands there, or `default` where there is no text.
pub open spec fn said(v: Option<JsonView>, default: Seq<char>) -> Seq<char> {
    match v {
        Some(JsonView::Text(t)) => t,
        _ => default,
    }
}

/// The items that stand there, none where there is no list.
pub open spec fn list_of(v: Option<JsonView>) -> Seq<JsonView> {
    match v {
        Some(JsonView::Array(items)) => items,
        _ => seq![],
    }
}

/// What stands three members deep.
pub open spec fn deeper(v: JsonView, first: Seq<char>, second: Seq<char>, third: Seq<char>) -> Option<JsonView> {
    match inner(v, first, second) {
        Some(w) => w.get(third),
        None => None,
    }
}

} // verus!
