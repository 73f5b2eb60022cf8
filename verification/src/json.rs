//! JSON documents as plain values of the library, and reading JSON text with
//! `serde_json`.

use vstd::prelude::*;

verus! {

/// A JSON value. A number keeps the text `serde_json` renders for it.
/// Object members of a parsed document come in key order (the order of
/// `serde_json`'s map).
#[derive(Debug)]
pub enum JsonValue {
    Null,
    Bool(bool),
    Number(String),
    String(String),
    Array(Vec<JsonValue>),
    Object(Vec<(String, JsonValue)>),
}

#[verifier::external_type_specification]
#[verifier::external_body]
pub struct ExSerdeJsonValue(serde_json::Value);

/// What `serde_json::from_str::<serde_json::Value>` yields for a text, as a
/// `JsonValue`, or the error's message (`serde_json::Error::to_string`).
pub uninterp spec fn json_parse_result(text: Seq<char>) -> Result<JsonValue, Seq<char>>;

/// The parsed document, `None` when the text is not valid JSON.
pub open spec fn json_parse(text: Seq<char>) -> Option<JsonValue> {
    match json_parse_result(text) {
        Ok(v) => Some(v),
        Err(_) => None,
    }
}

/// Converts a `serde_json::Value` tree into a `JsonValue`, node by node; the
/// number text is `Number::to_string`.
#[verifier::external_body]
pub(crate) fn json_from_serde(v: serde_json::Value) -> JsonValue {
    match v {
        serde_json::Value::Null => JsonValue::Null,
        serde_json::Value::Bool(b) => JsonValue::Bool(b),
        serde_json::Value::Number(n) => JsonValue::Number(n.to_string()),
        serde_json::Value::String(s) => JsonValue::String(s),
        serde_json::Value::Array(a) => JsonValue::Array(a.into_iter().map(json_from_serde).collect()),
        serde_json::Value::Object(m) => JsonValue::Object(m.into_iter().map(|(k, x)| (k, json_from_serde(x))).collect()),
    }
}

/// Converts a `JsonValue` into a `serde_json::Value`, node by node: number
/// text is read back with `Number::from_str` (`null` when it is not a JSON
/// number); object members are inserted in order into `serde_json`'s map,
/// where a later member replaces an earlier one of the same name.
#[verifier::external_body]
pub(crate) fn serde_from_json(v: &JsonValue) -> serde_json::Value {
    match v {
        JsonValue::Null => serde_json::Value::Null,
        JsonValue::Bool(b) => serde_json::Value::Bool(*b),
        JsonValue::Number(t) => t.parse::<serde_json::Number>().map(serde_json::Value::Number).unwrap_or(serde_json::Value::Null),
        JsonValue::String(s) => serde_json::Value::String(s.clone()),
        JsonValue::Array(a) => serde_json::Value::Array(a.iter().map(serde_from_json).collect()),
        JsonValue::Object(m) => serde_json::Value::Object(m.iter().map(|(k, x)| (k.clone(), serde_from_json(x))).collect()),
    }
}

/// What `serde_json::to_string` writes for a value with this content
/// (compact JSON).
pub uninterp spec fn json_text(v: Json) -> Seq<char>;

/// `serde_json::Value::to_string`: compact JSON text; the result is named
/// `json_text`.
#[verifier::external_body]
pub(crate) fn compact_json(v: &JsonValue) -> (r: String)
    ensures
        r@ == json_text(v@),
{
    serde_from_json(v).to_string()
}

/// What `serde_json::to_string_pretty` writes for a value with this
/// content (two-space indented JSON), or the error's message.
pub uninterp spec fn json_pretty_text(v: Json) -> Result<Seq<char>, Seq<char>>;

/// `serde_json::to_string_pretty`; the result is named `json_pretty_text`.
#[verifier::external_body]
pub(crate) fn pretty_json(v: &JsonValue) -> (r: Result<String, String>)
    ensures
        match r {
            Ok(t) => json_pretty_text(v@) == Ok::<Seq<char>, Seq<char>>(t@),
            Err(e) => json_pretty_text(v@) == Err::<Seq<char>, Seq<char>>(e@),
        },
{
    serde_json::to_string_pretty(&serde_from_json(v)).map_err(|e| e.to_string())
}

/// `serde_json::from_str::<serde_json::Value>`: parses JSON text, or gives
/// the error's message. The result is named `json_parse_result`.
#[verifier::external_body]
fn parse_json_text(text: &str) -> (r: Result<JsonValue, String>)
    ensures
        match r {
            Ok(v) => json_parse_result(text@) == Ok::<JsonValue, Seq<char>>(v),
            Err(e) => json_parse_result(text@) == Err::<JsonValue, Seq<char>>(e@),
        },
{
    serde_json::from_str::<serde_json::Value>(text).map(json_from_serde).map_err(|e| e.to_string())
}

impl JsonValue {
    /// The value as compact JSON text.
    pub fn to_text(&self) -> (r: String)
        ensures
            r@ == json_text(self@),
    {
        compact_json(self)
    }

    /// The value as two-space indented JSON text, or the serialiser's
    /// error message.
    pub fn to_pretty_text(&self) -> (r: Result<String, String>)
        ensures
            match r {
                Ok(t) => json_pretty_text(self@) == Ok::<Seq<char>, Seq<char>>(t@),
                Err(e) => json_pretty_text(self@) == Err::<Seq<char>, Seq<char>>(e@),
            },
    {
        pretty_json(self)
    }
}

/// Parses JSON text, or gives the parser's error message.
pub fn parse_json_or_error(text: &str) -> (r: Result<JsonValue, String>)
    ensures
        match r {
            Ok(v) => json_parse_result(text@) == Ok::<JsonValue, Seq<char>>(v),
            Err(e) => json_parse_result(text@) == Err::<JsonValue, Seq<char>>(e@),
        },
{
    parse_json_text(text)
}

/// Parses JSON text; `None` when it is not valid JSON.
pub fn parse_json(text: &str) -> (r: Option<JsonValue>)
    ensures
        r == json_parse(text@),
{
    match parse_json_text(text) {
        Ok(v) => Some(v),
        Err(_) => None,
    }
}

/// The first member from index `i` on whose name is `key`.
pub open spec fn member_from(m: Seq<(String, JsonValue)>, key: Seq<char>, i: int) -> Option<
    JsonValue,
>
    decreases m.len() - i,
{
    if i < 0 || i >= m.len() {
        None
    } else if m[i].0@ == key {
        Some(m[i].1)
    } else {
        member_from(m, key, i + 1)
    }
}

impl JsonValue {
    /// The member named `key` of an object (the first such member).
    pub open spec fn member(self, key: Seq<char>) -> Option<JsonValue> {
        match self {
            JsonValue::Object(m) => member_from(m@, key, 0),
            _ => None,
        }
    }

    /// The member named `key` of an object.
    #[verifier::loop_isolation(false)]
    pub fn get_member(&self, key: &Vec<char>) -> (r: Option<&JsonValue>)
        ensures
            match r {
                Some(v) => self.member(key@) == Some(*v),
                None => self.member(key@).is_none(),
            },
    {
        match self {
            JsonValue::Object(m) => {
                let mut i: usize = 0;
                while i < m.len()
                    invariant
                        i <= m.len(),
                        member_from(m@, key@, 0) == member_from(m@, key@, i as int),
                    decreases m.len() - i,
                {
                    let kc = crate::text::chars_of(m[i].0.as_str());
                    if crate::text::chars_eq(&kc, key) {
                        assert(m@[i as int].0@ == key@);
                        assert(member_from(m@, key@, i as int) == Some(m@[i as int].1));
                        return Some(&m[i].1);
                    }
                    i += 1;
                }
                None
            },
            _ => None,
        }
    }

    /// The member named `key` of an object, looked up by a string slice.
    pub fn get_str_member(&self, key: &str) -> (r: Option<&JsonValue>)
        ensures
            match r {
                Some(v) => self.member(key@) == Some(*v),
                None => self.member(key@).is_none(),
            },
    {
        let k = crate::text::chars_of(key);
        self.get_member(&k)
    }
}

proof fn lemma_member_from_some(m: Seq<(String, JsonValue)>, key: Seq<char>, i: int)
    ensures
        member_from(m, key, i) matches Some(x) ==> exists|j: int| 0 <= j < m.len() && m[j].1 == x,
    decreases m.len() - i,
{
    if 0 <= i < m.len() && m[i].0@ != key {
        lemma_member_from_some(m, key, i + 1);
    }
}

/// A member of an object is smaller than the object.
pub proof fn lemma_member_decreases(v: JsonValue, key: Seq<char>)
    ensures
        v.member(key) matches Some(x) ==> decreases_to!(v => x),
{
    if let JsonValue::Object(m) = v {
        lemma_member_from_some(m@, key, 0);
        if let Some(x) = v.member(key) {
            let j = choose|j: int| 0 <= j < m@.len() && m@[j].1 == x;
            assert(decreases_to!(v => m));
            assert(decreases_to!(m => m@));
            assert(decreases_to!(m@ => m@[j]));
            assert(decreases_to!(m@[j] => m@[j].1));
        }
    }
}

/// The string held by a member, if it is a string.
pub open spec fn member_str(v: JsonValue, key: Seq<char>) -> Option<Seq<char>> {
    match v.member(key) {
        Some(JsonValue::String(s)) => Some(s@),
        _ => None,
    }
}

/// The text of an optional string, or `default`.
pub open spec fn str_or(o: Option<Seq<char>>, default: Seq<char>) -> Seq<char> {
    match o {
        Some(s) => s,
        None => default,
    }
}

impl JsonValue {
    /// The string this value holds, if it is a string (`Value::as_str`).
    pub fn as_str(&self) -> (r: Option<&String>)
        ensures
            match *self {
                JsonValue::String(s) => r == Some(&s),
                _ => r.is_none(),
            },
    {
        match self {
            JsonValue::String(s) => Some(s),
            _ => None,
        }
    }

    /// The string held by the member `key`, if it is a string.
    pub fn member_str(&self, key: &str) -> (r: Option<&String>)
        ensures
            match r {
                Some(s) => member_str(*self, key@) == Some(s@),
                None => member_str(*self, key@).is_none(),
            },
    {
        match self.get_str_member(key) {
            Some(v) => v.as_str(),
            None => None,
        }
    }
}

// ----- the plain content of a value -----

/// The plain content of a JSON value.
pub enum Json {
    Null,
    Bool(bool),
    Number(Seq<char>),
    Str(Seq<char>),
    Array(Seq<Json>),
    Object(Seq<(Seq<char>, Json)>),
}

/// The plain content of a value.
pub open spec fn json_of(v: JsonValue) -> Json
    decreases v,
{
    match v {
        JsonValue::Null => Json::Null,
        JsonValue::Bool(b) => Json::Bool(b),
        JsonValue::Number(t) => Json::Number(t@),
        JsonValue::String(s) => Json::Str(s@),
        JsonValue::Array(a) => {
            proof {
                assert(decreases_to!(v => a));
                assert(decreases_to!(a => a@));
            }
            Json::Array(jsons_of(a@))
        },
        JsonValue::Object(m) => {
            proof {
                assert(decreases_to!(v => m));
                assert(decreases_to!(m => m@));
            }
            Json::Object(members_of(m@))
        },
    }
}

/// The plain contents of a sequence of values.
pub open spec fn jsons_of(a: Seq<JsonValue>) -> Seq<Json>
    decreases a,
{
    if a.len() == 0 {
        Seq::empty()
    } else {
        proof {
            assert(decreases_to!(a => a.subrange(0, a.len() - 1)));
            assert(decreases_to!(a => a[a.len() - 1]));
        }
        jsons_of(a.drop_last()).push(json_of(a.last()))
    }
}

/// The plain contents of object members.
pub open spec fn members_of(m: Seq<(String, JsonValue)>) -> Seq<(Seq<char>, Json)>
    decreases m,
{
    if m.len() == 0 {
        Seq::empty()
    } else {
        proof {
            assert(decreases_to!(m => m.subrange(0, m.len() - 1)));
            assert(decreases_to!(m => m[m.len() - 1]));
            assert(decreases_to!(m[m.len() - 1] => m[m.len() - 1].1));
        }
        members_of(m.drop_last()).push((m.last().0@, json_of(m.last().1)))
    }
}

impl View for JsonValue {
    type V = Json;

    open spec fn view(&self) -> Json {
        json_of(*self)
    }
}

/// `jsons_of` goes element by element.
pub proof fn lemma_jsons_of(a: Seq<JsonValue>)
    ensures
        jsons_of(a).len() == a.len(),
        forall|i: int| 0 <= i < a.len() ==> #[trigger] jsons_of(a)[i] == json_of(a[i]),
    decreases a.len(),
{
    if a.len() > 0 {
        lemma_jsons_of(a.drop_last());
        assert forall|i: int| 0 <= i < a.len() implies #[trigger] jsons_of(a)[i] == json_of(a[i]) by {
            if i < a.len() - 1 {
                assert(jsons_of(a)[i] == jsons_of(a.drop_last())[i]);
            }
        }
    }
}

/// `members_of` goes member by member.
pub proof fn lemma_members_of(m: Seq<(String, JsonValue)>)
    ensures
        members_of(m).len() == m.len(),
        forall|i: int| 0 <= i < m.len() ==> #[trigger] members_of(m)[i] == (m[i].0@, json_of(m[i].1)),
    decreases m.len(),
{
    if m.len() > 0 {
        lemma_members_of(m.drop_last());
        assert forall|i: int| 0 <= i < m.len() implies #[trigger] members_of(m)[i] == (m[i].0@, json_of(m[i].1)) by {
            if i < m.len() - 1 {
                assert(members_of(m)[i] == members_of(m.drop_last())[i]);
            }
        }
    }
}

pub proof fn lemma_jsons_of_push(a: Seq<JsonValue>, x: JsonValue)
    ensures
        jsons_of(a.push(x)) == jsons_of(a).push(json_of(x)),
{
    assert(a.push(x).drop_last() =~= a);
}

pub proof fn lemma_members_of_push(m: Seq<(String, JsonValue)>, x: (String, JsonValue))
    ensures
        members_of(m.push(x)) == members_of(m).push((x.0@, json_of(x.1))),
{
    assert(m.push(x).drop_last() =~= m);
}

impl JsonValue {
    /// A deep copy.
    pub fn clone_json(&self) -> (r: JsonValue)
        ensures
            r@ == self@,
        decreases self,
    {
        match self {
            JsonValue::Null => JsonValue::Null,
            JsonValue::Bool(b) => JsonValue::Bool(*b),
            JsonValue::Number(t) => JsonValue::Number(t.clone()),
            JsonValue::String(t) => JsonValue::String(t.clone()),
            JsonValue::Array(a) => {
                let mut out: Vec<JsonValue> = Vec::new();
                let mut i: usize = 0;
                proof {
                    lemma_jsons_of(a@);
                }
                while i < a.len()
                    invariant
                        i <= a.len(),
                        *self == JsonValue::Array(*a),
                        jsons_of(a@).len() == a@.len(),
                        forall|j: int| 0 <= j < a@.len() ==> #[trigger] jsons_of(a@)[j] == json_of(a@[j]),
                        jsons_of(out@) == jsons_of(a@).take(i as int),
                    decreases a.len() - i,
                {
                    proof {
                        assert(decreases_to!(*self => self->Array_0));
                        assert(decreases_to!(self->Array_0 => self->Array_0@));
                        assert(decreases_to!(self->Array_0@ => self->Array_0@[i as int]));
                    }
                    let x = a[i].clone_json();
                    let ghost before = out@;
                    out.push(x);
                    proof {
                        lemma_jsons_of_push(before, x);
                        assert(out@ == before.push(x));
                        assert(jsons_of(a@).take(i + 1) =~= jsons_of(a@).take(i as int).push(json_of(a@[i as int])));
                    }
                    i += 1;
                }
                proof {
                    assert(jsons_of(a@).take(a.len() as int) =~= jsons_of(a@));
                }
                JsonValue::Array(out)
            },
            JsonValue::Object(m) => {
                let mut out: Vec<(String, JsonValue)> = Vec::new();
                let mut i: usize = 0;
                proof {
                    lemma_members_of(m@);
                }
                while i < m.len()
                    invariant
                        i <= m.len(),
                        *self == JsonValue::Object(*m),
                        members_of(m@).len() == m@.len(),
                        forall|j: int| 0 <= j < m@.len() ==> #[trigger] members_of(m@)[j] == (m@[j].0@, json_of(m@[j].1)),
                        members_of(out@) == members_of(m@).take(i as int),
                    decreases m.len() - i,
                {
                    proof {
                        assert(decreases_to!(*self => self->Object_0));
                        assert(decreases_to!(self->Object_0 => self->Object_0@));
                        assert(decreases_to!(self->Object_0@ => self->Object_0@[i as int]));
                        assert(decreases_to!(self->Object_0@[i as int] => self->Object_0@[i as int].1));
                    }
                    let pair = (m[i].0.clone(), m[i].1.clone_json());
                    let ghost before = out@;
                    out.push(pair);
                    proof {
                        lemma_members_of_push(before, pair);
                        assert(out@ == before.push(pair));
                        assert(members_of(m@).take(i + 1) =~= members_of(m@).take(i as int).push((m@[i as int].0@, json_of(m@[i as int].1))));
                    }
                    i += 1;
                }
                proof {
                    assert(members_of(m@).take(m.len() as int) =~= members_of(m@));
                }
                JsonValue::Object(out)
            },
        }
    }
}

} // verus!
