//! What an import makes of OpenAPI schemas: example values, and the type
//! name of a parameter. `$ref`s to `#/components/schemas/…` are followed;
//! an example that would expand a schema inside itself has no end, and such
//! schemas are told apart (`Ex::Loops`).

use vstd::prelude::*;

use crate::domain::{
    field_of, fields_of, lemma_fields_of, lemma_fields_of_push, owned, str_eq, BodyField, Field,
};
use crate::json::{compact_json, json_text, str_or};
use crate::text::{copy_strings, string_views};
use crate::json::{json_of, jsons_of, lemma_jsons_of, lemma_members_of, members_of, Json, JsonValue};
use crate::openapi::{OaAnySchema, OaSchema, OaSchemaKind, SchemaRef};
use crate::text::{chars_of, copy_range, decimal, push_decimal, starts_at_exec, string_of};

verus! {

// ----- references -----

/// `s` without the prefix `p`, when it starts with it.
pub open spec fn strip_prefix(s: Seq<char>, p: Seq<char>) -> Option<Seq<char>> {
    if s.len() >= p.len() && s.take(p.len() as int) == p {
        Some(s.skip(p.len() as int))
    } else {
        None
    }
}

/// See `strip_prefix`.
pub fn strip_prefix_exec(s: &str, p: &str) -> (r: Option<String>)
    ensures
        match r {
            Some(t) => strip_prefix(s@, p@) == Some(t@),
            None => strip_prefix(s@, p@).is_none(),
        },
{
    let v = chars_of(s);
    let w = chars_of(p);
    if v.len() >= w.len() && starts_at_exec(&v, 0, &w) {
        let rest = copy_range(&v, w.len(), v.len());
        proof {
            assert(v@.subrange(0, w@.len() as int) == v@.take(w@.len() as int));
        }
        Some(string_of(&rest))
    } else {
        proof {
            if v@.len() >= w@.len() {
                assert(v@.take(w@.len() as int) == v@.subrange(0, 0 + w@.len() as int));
            }
        }
        None
    }
}

/// The value of the first entry named `k`.
pub open spec fn lookup<T>(m: Seq<(String, T)>, k: Seq<char>) -> Option<T>
    decreases m.len(),
{
    if m.len() == 0 {
        None
    } else if m[0].0@ == k {
        Some(m[0].1)
    } else {
        lookup(m.drop_first(), k)
    }
}

/// The index of the first entry named `k`.
pub open spec fn lookup_index<T>(m: Seq<(String, T)>, k: Seq<char>) -> Option<int>
    decreases m.len(),
{
    if m.len() == 0 {
        None
    } else if m[0].0@ == k {
        Some(0)
    } else {
        match lookup_index(m.drop_first(), k) {
            Some(i) => Some(i + 1),
            None => None,
        }
    }
}

pub proof fn lemma_lookup<T>(m: Seq<(String, T)>, k: Seq<char>)
    ensures
        match lookup_index(m, k) {
            Some(i) => 0 <= i < m.len() && m[i].0@ == k && lookup(m, k) == Some(m[i].1) && forall|j: int|
                0 <= j < i ==> m[j].0@ != k,
            None => lookup(m, k).is_none() && forall|j: int| 0 <= j < m.len() ==> m[j].0@ != k,
        },
    decreases m.len(),
{
    if m.len() > 0 {
        lemma_lookup(m.drop_first(), k);
        if m[0].0@ != k {
            assert forall|j: int| 1 <= j < m.len() implies m[j].0@ == m.drop_first()[j - 1].0@ by {}
        }
    }
}

/// The index of the first entry named `k` (see `lookup`).
pub fn find_entry<T>(m: &Vec<(String, T)>, k: &str) -> (r: Option<usize>)
    ensures
        match r {
            Some(i) => lookup_index(m@, k@) == Some(i as int),
            None => lookup_index(m@, k@).is_none(),
        },
{
    proof {
        lemma_lookup(m@, k@);
    }
    let mut i: usize = 0;
    while i < m.len()
        invariant
            i <= m.len(),
            forall|j: int| 0 <= j < i ==> m@[j].0@ != k@,
        decreases m.len() - i,
    {
        if str_eq(m[i].0.as_str(), k) {
            proof {
                lemma_lookup(m@, k@);
                if let Some(j) = lookup_index(m@, k@) {
                    assert(j == i);
                }
            }
            return Some(i);
        }
        i += 1;
    }
    None
}

/// How many schema entries have a name outside `path`: what shrinks when a
/// reference is followed.
pub open spec fn unvisited(m: Seq<(String, SchemaRef)>, path: Set<Seq<char>>) -> nat
    decreases m.len(),
{
    if m.len() == 0 {
        0
    } else {
        unvisited(m.drop_last(), path) + if path.contains(m.last().0@) { 0nat } else { 1nat }
    }
}

pub proof fn lemma_unvisited_insert(m: Seq<(String, SchemaRef)>, path: Set<Seq<char>>, name: Seq<char>)
    ensures
        unvisited(m, path.insert(name)) <= unvisited(m, path),
        !path.contains(name) && (exists|j: int| 0 <= j < m.len() && m[j].0@ == name) ==> unvisited(
            m,
            path.insert(name),
        ) < unvisited(m, path),
    decreases m.len(),
{
    if m.len() > 0 {
        lemma_unvisited_insert(m.drop_last(), path, name);
        if !path.contains(name) && (exists|j: int| 0 <= j < m.len() && m[j].0@ == name) {
            let j = choose|j: int| 0 <= j < m.len() && m[j].0@ == name;
            if j < m.len() - 1 {
                assert(m.drop_last()[j].0@ == name);
            }
        }
    }
}

/// A followed reference shrinks `unvisited`.
pub proof fn lemma_follow(m: Seq<(String, SchemaRef)>, path: Set<Seq<char>>, name: Seq<char>)
    requires
        lookup(m, name).is_some(),
        !path.contains(name),
    ensures
        unvisited(m, path.insert(name)) < unvisited(m, path),
{
    lemma_lookup(m, name);
    let i = lookup_index(m, name).unwrap();
    assert(m[i].0@ == name);
    lemma_unvisited_insert(m, path, name);
}

/// The prefix of a reference to a component schema.
pub open spec fn schema_prefix() -> Seq<char> {
    "#/components/schemas/"@
}

/// The component schema a reference names: the schema entry found by the
/// name after `#/components/schemas/`, when that entry is not itself a
/// reference.
pub open spec fn ref_target(schemas: Seq<(String, SchemaRef)>, reference: Seq<char>) -> Option<(Seq<char>, OaSchema)> {
    match strip_prefix(reference, schema_prefix()) {
        Some(name) => match lookup(schemas, name) {
            Some(SchemaRef::Item(b)) => Some((name, *b)),
            _ => None,
        },
        None => None,
    }
}

/// See `ref_target`: the name and the index of the entry.
pub(crate) fn ref_target_exec(schemas: &Vec<(String, SchemaRef)>, reference: &str) -> (r: Option<(String, usize)>)
    ensures
        match r {
            Some((name, i)) => i < schemas@.len() && schemas@[i as int].1 is Item && ref_target(
                schemas@,
                reference@,
            ) == Some((name@, *schemas@[i as int].1->Item_0)) && lookup(schemas@, name@).is_some(),
            None => ref_target(schemas@, reference@).is_none(),
        },
{
    match strip_prefix_exec(reference, "#/components/schemas/") {
        Some(name) => match find_entry(schemas, name.as_str()) {
            Some(i) => {
                proof {
                    lemma_lookup(schemas@, name@);
                }
                match &schemas[i].1 {
                    SchemaRef::Item(_) => Some((name, i)),
                    SchemaRef::Reference(_) => None,
                }
            },
            None => {
                proof {
                    lemma_lookup(schemas@, name@);
                }
                None
            },
        },
        None => None,
    }
}

// ----- example values -----

/// The example of a schema: a value, none, or no end (the schema would be
/// expanded inside itself).
pub enum Ex {
    Done(Option<Json>),
    Loops,
}

/// The decimal text of an integer.
pub open spec fn int_text(n: i64) -> Seq<char> {
    if n < 0 {
        "-"@ + decimal((-n) as nat)
    } else {
        decimal(n as nat)
    }
}

/// The first entry of an enumeration that is not `null`.
pub open spec fn first_some<T>(s: Seq<Option<T>>) -> Option<T>
    decreases s.len(),
{
    if s.len() == 0 {
        None
    } else {
        match s[0] {
            Some(x) => Some(x),
            None => first_some(s.drop_first()),
        }
    }
}

/// The example of a schema or reference (see `ex_schema`).
pub open spec fn ex_ref(r: SchemaRef, schemas: Seq<(String, SchemaRef)>, path: Set<Seq<char>>) -> Ex
    decreases unvisited(schemas, path), r,
{
    match r {
        SchemaRef::Item(b) => ex_schema(*b, schemas, path),
        SchemaRef::Reference(t) => match ref_target(schemas, t@) {
            Some((name, s)) => if path.contains(name) {
                Ex::Loops
            } else {
                proof {
                    lemma_follow(schemas, path, name);
                }
                ex_schema(s, schemas, path.insert(name))
            },
            None => Ex::Done(None),
        },
    }
}

/// The example of a schema: its own example, else its default, else one
/// made from its kind (see `ex_kind`). `path` holds the component schemas
/// being expanded.
pub open spec fn ex_schema(s: OaSchema, schemas: Seq<(String, SchemaRef)>, path: Set<Seq<char>>) -> Ex
    decreases unvisited(schemas, path), s,
{
    match s.example {
        Some(v) => Ex::Done(Some(v@)),
        None => match s.default {
            Some(v) => Ex::Done(Some(v@)),
            None => ex_kind(s.kind, schemas, path),
        },
    }
}

/// The example made from a schema kind: the first enumerated value, else
/// `""`, `0`, `0` or `false`; an object of its properties' examples (or,
/// with none, `{"key": …}` from the additional-properties schema); an array
/// of one item example (or empty); the first alternative of `oneOf` /
/// `anyOf`; for `allOf` the first part's example when it is not an object,
/// else an object merging the members of every object part; nothing for
/// `not`; for an untyped schema the first enumerated value, else by its
/// type name.
pub open spec fn ex_kind(k: OaSchemaKind, schemas: Seq<(String, SchemaRef)>, path: Set<Seq<char>>) -> Ex
    decreases unvisited(schemas, path), k,
{
    match k {
        OaSchemaKind::String(en) => Ex::Done(
            Some(
                match first_some(en@) {
                    Some(t) => Json::Str(t@),
                    None => Json::Str(Seq::empty()),
                },
            ),
        ),
        OaSchemaKind::Integer(en) => Ex::Done(
            Some(
                Json::Number(
                    match first_some(en@) {
                        Some(n) => int_text(n),
                        None => "0"@,
                    },
                ),
            ),
        ),
        OaSchemaKind::Number(en) => Ex::Done(
            Some(
                match first_some(en@) {
                    Some(v) => v@,
                    None => Json::Number("0"@),
                },
            ),
        ),
        OaSchemaKind::Boolean(en) => Ex::Done(
            Some(
                Json::Bool(
                    match first_some(en@) {
                        Some(b) => b,
                        None => false,
                    },
                ),
            ),
        ),
        OaSchemaKind::Object(props, _, additional) => {
            proof {
                assert(decreases_to!(k => props));
                assert(decreases_to!(props => props@));
            }
            match ex_props(props@, schemas, path) {
                Ex::Done(Some(Json::Object(ms))) => if ms.len() == 0 {
                    match additional {
                        Some(extra) => match ex_ref(extra, schemas, path) {
                            Ex::Loops => Ex::Loops,
                            Ex::Done(Some(v)) => Ex::Done(Some(Json::Object(seq![("key"@, v)]))),
                            Ex::Done(None) => Ex::Done(Some(Json::Object(ms))),
                        },
                        None => Ex::Done(Some(Json::Object(ms))),
                    }
                } else {
                    Ex::Done(Some(Json::Object(ms)))
                },
                _ => Ex::Loops,
            }
        },
        OaSchemaKind::Array(items) => match items {
            Some(r) => match ex_ref(r, schemas, path) {
                Ex::Loops => Ex::Loops,
                Ex::Done(Some(v)) => Ex::Done(Some(Json::Array(seq![v]))),
                Ex::Done(None) => Ex::Done(Some(Json::Array(Seq::empty()))),
            },
            None => Ex::Done(Some(Json::Array(Seq::empty()))),
        },
        OaSchemaKind::OneOf(list) => if list@.len() == 0 {
            Ex::Done(None)
        } else {
            proof {
                assert(decreases_to!(k => list));
                assert(decreases_to!(list => list@));
                assert(decreases_to!(list@ => list@[0]));
            }
            ex_ref(list@[0], schemas, path)
        },
        OaSchemaKind::AnyOf(list) => if list@.len() == 0 {
            Ex::Done(None)
        } else {
            proof {
                assert(decreases_to!(k => list));
                assert(decreases_to!(list => list@));
                assert(decreases_to!(list@ => list@[0]));
            }
            ex_ref(list@[0], schemas, path)
        },
        OaSchemaKind::AllOf(list) => {
            proof {
                assert(decreases_to!(k => list));
                assert(decreases_to!(list => list@));
            }
            if list@.len() == 0 {
                Ex::Done(Some(Json::Object(Seq::empty())))
            } else {
                proof {
                    assert(decreases_to!(list@ => list@[0]));
                    assert(decreases_to!(list@ => list@.subrange(1, list@.len() as int)));
                }
                match ex_ref(list@[0], schemas, path) {
                    Ex::Loops => Ex::Loops,
                    Ex::Done(Some(Json::Object(base))) => match ex_merge(list@.skip(1), schemas, path) {
                        Ex::Done(Some(Json::Object(more))) => Ex::Done(Some(Json::Object(base + more))),
                        _ => Ex::Loops,
                    },
                    Ex::Done(Some(v)) => Ex::Done(Some(v)),
                    Ex::Done(None) => match ex_merge(list@.skip(1), schemas, path) {
                        Ex::Done(Some(Json::Object(more))) => Ex::Done(Some(Json::Object(more))),
                        _ => Ex::Loops,
                    },
                }
            }
        },
        OaSchemaKind::Not => Ex::Done(None),
        OaSchemaKind::Any(a) => {
            proof {
                assert(decreases_to!(k => a));
            }
            ex_any(a, schemas, path)
        },
    }
}

/// The example of an untyped schema (see `ex_kind`).
pub open spec fn ex_any(a: OaAnySchema, schemas: Seq<(String, SchemaRef)>, path: Set<Seq<char>>) -> Ex
    decreases unvisited(schemas, path), a,
{
    if a.enumeration@.len() > 0 {
        Ex::Done(Some(a.enumeration@[0]@))
    } else {
        match a.typ {
            Some(t) => if t@ == "object"@ {
                proof {
                    assert(decreases_to!(a => a.properties));
                    assert(decreases_to!(a.properties => a.properties@));
                }
                ex_props(a.properties@, schemas, path)
            } else if t@ == "array"@ {
                match a.items {
                    Some(r) => match ex_ref(r, schemas, path) {
                        Ex::Loops => Ex::Loops,
                        Ex::Done(Some(v)) => Ex::Done(Some(Json::Array(seq![v]))),
                        Ex::Done(None) => Ex::Done(Some(Json::Array(Seq::empty()))),
                    },
                    None => Ex::Done(Some(Json::Array(Seq::empty()))),
                }
            } else if t@ == "string"@ {
                Ex::Done(Some(Json::Str(Seq::empty())))
            } else if t@ == "integer"@ || t@ == "number"@ {
                Ex::Done(Some(Json::Number("0"@)))
            } else if t@ == "boolean"@ {
                Ex::Done(Some(Json::Bool(false)))
            } else {
                Ex::Done(None)
            },
            None => Ex::Done(None),
        }
    }
}

/// The object of the examples of some properties (properties without an
/// example are left out).
pub open spec fn ex_props(props: Seq<(String, SchemaRef)>, schemas: Seq<(String, SchemaRef)>, path: Set<Seq<char>>) -> Ex
    decreases unvisited(schemas, path), props,
{
    if props.len() == 0 {
        Ex::Done(Some(Json::Object(Seq::empty())))
    } else {
        proof {
            assert(decreases_to!(props => props.subrange(0, props.len() - 1)));
            assert(decreases_to!(props => props[props.len() - 1]));
            assert(decreases_to!(props[props.len() - 1] => props[props.len() - 1].1));
        }
        match ex_props(props.drop_last(), schemas, path) {
            Ex::Done(Some(Json::Object(ms))) => match ex_ref(props.last().1, schemas, path) {
                Ex::Loops => Ex::Loops,
                Ex::Done(Some(v)) => Ex::Done(Some(Json::Object(ms.push((props.last().0@, v))))),
                Ex::Done(None) => Ex::Done(Some(Json::Object(ms))),
            },
            _ => Ex::Loops,
        }
    }
}

/// The members of the object examples of some parts, in order.
pub open spec fn ex_merge(parts: Seq<SchemaRef>, schemas: Seq<(String, SchemaRef)>, path: Set<Seq<char>>) -> Ex
    decreases unvisited(schemas, path), parts,
{
    if parts.len() == 0 {
        Ex::Done(Some(Json::Object(Seq::empty())))
    } else {
        proof {
            assert(decreases_to!(parts => parts.subrange(0, parts.len() - 1)));
            assert(decreases_to!(parts => parts[parts.len() - 1]));
        }
        match ex_merge(parts.drop_last(), schemas, path) {
            Ex::Done(Some(Json::Object(acc))) => match ex_ref(parts.last(), schemas, path) {
                Ex::Loops => Ex::Loops,
                Ex::Done(Some(Json::Object(sub))) => Ex::Done(Some(Json::Object(acc + sub))),
                Ex::Done(_) => Ex::Done(Some(Json::Object(acc))),
            },
            _ => Ex::Loops,
        }
    }
}

/// The plain content of an optional value.
pub open spec fn opt_json(o: Option<JsonValue>) -> Option<Json> {
    match o {
        Some(v) => Some(v@),
        None => None,
    }
}

/// Whether an example comes to an end.
pub open spec fn ends(e: Ex) -> bool {
    e is Done
}

/// The example an exec result stands for: `None` for no end.
pub open spec fn ex_view(r: Option<Option<JsonValue>>) -> Ex {
    match r {
        Some(o) => Ex::Done(opt_json(o)),
        None => Ex::Loops,
    }
}

proof fn lemma_props_loops(props: Seq<(String, SchemaRef)>, schemas: Seq<(String, SchemaRef)>, path: Set<Seq<char>>, i: int)
    requires
        0 <= i <= props.len(),
        !ends(ex_props(props.take(i), schemas, path)),
    ensures
        !ends(ex_props(props, schemas, path)),
    decreases props.len() - i,
{
    if i < props.len() {
        assert(props.take(i + 1).drop_last() =~= props.take(i));
        lemma_props_loops(props, schemas, path, i + 1);
    } else {
        assert(props.take(i) =~= props);
    }
}

proof fn lemma_merge_loops(parts: Seq<SchemaRef>, schemas: Seq<(String, SchemaRef)>, path: Set<Seq<char>>, i: int)
    requires
        0 <= i <= parts.len(),
        !ends(ex_merge(parts.take(i), schemas, path)),
    ensures
        !ends(ex_merge(parts, schemas, path)),
    decreases parts.len() - i,
{
    if i < parts.len() {
        assert(parts.take(i + 1).drop_last() =~= parts.take(i));
        lemma_merge_loops(parts, schemas, path, i + 1);
    } else {
        assert(parts.take(i) =~= parts);
    }
}

/// The decimal text of an integer.
fn int_json_text(n: i64) -> (r: String)
    ensures
        r@ == int_text(n),
{
    if n < 0 {
        let m: i128 = n as i128;
        let u: u64 = (0 - m) as u64;
        let mut v = chars_of("-");
        push_decimal(&mut v, u);
        proof {
            reveal_strlit("-");
        }
        string_of(&v)
    } else {
        let mut v: Vec<char> = Vec::new();
        push_decimal(&mut v, n as u64);
        assert(v@ =~= decimal(n as nat));
        string_of(&v)
    }
}

fn first_some_string(en: &Vec<Option<String>>) -> (r: Option<String>)
    ensures
        match r {
            Some(t) => first_some(en@) == Some(t),
            None => first_some(en@).is_none(),
        },
{
    let mut i: usize = 0;
    assert(en@.skip(0) =~= en@);
    while i < en.len()
        invariant
            i <= en.len(),
            first_some(en@) == first_some(en@.skip(i as int)),
        decreases en.len() - i,
    {
        assert(en@.skip(i as int).drop_first() =~= en@.skip(i + 1));
        assert(en@.skip(i as int)[0] == en@[i as int]);
        if let Some(t) = &en[i] {
            return Some(t.clone());
        }
        i += 1;
    }
    assert(en@.skip(i as int) =~= Seq::<Option<String>>::empty());
    None
}

fn first_some_copy<T: Copy>(en: &Vec<Option<T>>) -> (r: Option<T>)
    ensures
        r == first_some(en@),
{
    let mut i: usize = 0;
    assert(en@.skip(0) =~= en@);
    while i < en.len()
        invariant
            i <= en.len(),
            first_some(en@) == first_some(en@.skip(i as int)),
        decreases en.len() - i,
    {
        assert(en@.skip(i as int).drop_first() =~= en@.skip(i + 1));
        assert(en@.skip(i as int)[0] == en@[i as int]);
        if let Some(t) = en[i] {
            return Some(t);
        }
        i += 1;
    }
    assert(en@.skip(i as int) =~= Seq::<Option<T>>::empty());
    None
}

fn num_text(t: &str) -> (r: JsonValue)
    ensures
        r@ == Json::Number(t@),
{
    JsonValue::Number(owned(t))
}

fn one_value(v: JsonValue) -> (r: JsonValue)
    ensures
        r@ == Json::Array(seq![v@]),
{
    let one = vec![v];
    proof {
        lemma_jsons_of(one@);
        assert(jsons_of(one@) =~= seq![v@]);
    }
    JsonValue::Array(one)
}

fn no_values() -> (r: JsonValue)
    ensures
        r@ == Json::Array(Seq::empty()),
{
    let none: Vec<JsonValue> = Vec::new();
    proof {
        lemma_jsons_of(none@);
        assert(jsons_of(none@) =~= Seq::<Json>::empty());
    }
    JsonValue::Array(none)
}

/// The example of a schema or reference (see `ex_ref`); `None` when it has
/// no end. `path` holds the component schemas being expanded.
pub fn example_ref(r: &SchemaRef, schemas: &Vec<(String, SchemaRef)>, path: &Vec<String>) -> (res: Option<Option<JsonValue>>)
    ensures
        ex_view(res) == ex_ref(*r, schemas@, set_of(string_views(path@))),
    decreases unvisited(schemas@, set_of(string_views(path@))), *r,
{
    match r {
        SchemaRef::Item(b) => example_schema(b, schemas, path),
        SchemaRef::Reference(t) => match ref_target_exec(schemas, t.as_str()) {
            Some((name, i)) => {
                if contains_name(path, &name) {
                    proof {
                        assert(set_of(string_views(path@)).contains(name@));
                    }
                    return None;
                }
                let mut next = copy_strings(path);
                next.push(name.clone());
                proof {
                    assert(string_views(next@) =~= string_views(path@).push(name@));
                    lemma_follow(schemas@, set_of(string_views(path@)), name@);
                    lemma_set_of_push(string_views(path@), name@);
                }
                match &schemas[i].1 {
                    SchemaRef::Item(b) => example_schema(b, schemas, &next),
                    SchemaRef::Reference(_) => Some(None),
                }
            },
            None => Some(None),
        },
    }
}

/// The example of a schema (see `ex_schema`); `None` when it has no end.
pub fn example_schema(s: &OaSchema, schemas: &Vec<(String, SchemaRef)>, path: &Vec<String>) -> (res: Option<Option<JsonValue>>)
    ensures
        ex_view(res) == ex_schema(*s, schemas@, set_of(string_views(path@))),
    decreases unvisited(schemas@, set_of(string_views(path@))), *s,
{
    match &s.example {
        Some(v) => Some(Some(v.clone_json())),
        None => match &s.default {
            Some(v) => Some(Some(v.clone_json())),
            None => example_kind(&s.kind, schemas, path),
        },
    }
}

/// The example made from a schema kind (see `ex_kind`); `None` when it has
/// no end.
pub fn example_kind(k: &OaSchemaKind, schemas: &Vec<(String, SchemaRef)>, path: &Vec<String>) -> (res: Option<Option<JsonValue>>)
    ensures
        ex_view(res) == ex_kind(*k, schemas@, set_of(string_views(path@))),
    decreases unvisited(schemas@, set_of(string_views(path@))), *k,
{
    match k {
        OaSchemaKind::String(en) => match first_some_string(en) {
            Some(t) => Some(Some(JsonValue::String(t))),
            None => Some(Some(JsonValue::String(String::new()))),
        },
        OaSchemaKind::Integer(en) => match first_some_copy(en) {
            Some(n) => Some(Some(JsonValue::Number(int_json_text(n)))),
            None => Some(Some(num_text("0"))),
        },
        OaSchemaKind::Number(en) => match first_some_ref(en) {
            Some(v) => Some(Some(v.clone_json())),
            None => Some(Some(num_text("0"))),
        },
        OaSchemaKind::Boolean(en) => match first_some_copy(en) {
            Some(b) => Some(Some(JsonValue::Bool(b))),
            None => Some(Some(JsonValue::Bool(false))),
        },
        OaSchemaKind::Object(props, _, additional) => {
            let ms = match example_props(props, schemas, path) {
                Some(ms) => ms,
                None => {
                    return None;
                },
            };
            if ms.len() == 0 {
                match additional {
                    Some(extra) => match example_ref(extra, schemas, path) {
                        None => None,
                        Some(Some(v)) => {
                            let one = vec![(owned("key"), v)];
                            proof {
                                lemma_members_of(one@);
                                assert(members_of(one@) =~= seq![("key"@, v@)]);
                            }
                            Some(Some(JsonValue::Object(one)))
                        },
                        Some(None) => Some(Some(JsonValue::Object(ms))),
                    },
                    None => Some(Some(JsonValue::Object(ms))),
                }
            } else {
                Some(Some(JsonValue::Object(ms)))
            }
        },
        OaSchemaKind::Array(items) => match items {
            Some(r) => match example_ref(r, schemas, path) {
                None => None,
                Some(Some(v)) => Some(Some(one_value(v))),
                Some(None) => Some(Some(no_values())),
            },
            None => Some(Some(no_values())),
        },
        OaSchemaKind::OneOf(list) => if list.len() == 0 {
            Some(None)
        } else {
            example_ref(&list[0], schemas, path)
        },
        OaSchemaKind::AnyOf(list) => if list.len() == 0 {
            Some(None)
        } else {
            example_ref(&list[0], schemas, path)
        },
        OaSchemaKind::AllOf(list) => {
            if list.len() == 0 {
                let none: Vec<(String, JsonValue)> = Vec::new();
                proof {
                    lemma_members_of(none@);
                    assert(members_of(none@) =~= Seq::<(Seq<char>, Json)>::empty());
                }
                return Some(Some(JsonValue::Object(none)));
            }
            let first = match example_ref(&list[0], schemas, path) {
                None => {
                    return None;
                },
                Some(f) => f,
            };
            let mut base: Vec<(String, JsonValue)> = match first {
                Some(JsonValue::Object(m)) => m,
                Some(v) => {
                    return Some(Some(v));
                },
                None => Vec::new(),
            };
            proof {
                lemma_members_of(base@);
                if first.is_none() {
                    assert(members_of(base@) =~= Seq::<(Seq<char>, Json)>::empty());
                }
            }
            let mut more = match example_merge(list, 1, schemas, path) {
                Some(m) => m,
                None => {
                    return None;
                },
            };
            let ghost b0 = base@;
            let ghost m0 = more@;
            base.append(&mut more);
            proof {
                lemma_members_of(b0);
                lemma_members_of(m0);
                lemma_members_of(base@);
                assert(members_of(base@) =~= members_of(b0) + members_of(m0));
            }
            Some(Some(JsonValue::Object(base)))
        },
        OaSchemaKind::Not => Some(None),
        OaSchemaKind::Any(a) => example_any(a, schemas, path),
    }
}

/// The example of an untyped schema (see `ex_any`); `None` when it has no
/// end.
pub fn example_any(a: &OaAnySchema, schemas: &Vec<(String, SchemaRef)>, path: &Vec<String>) -> (res: Option<Option<JsonValue>>)
    ensures
        ex_view(res) == ex_any(*a, schemas@, set_of(string_views(path@))),
    decreases unvisited(schemas@, set_of(string_views(path@))), *a,
{
    if a.enumeration.len() > 0 {
        return Some(Some(a.enumeration[0].clone_json()));
    }
    match &a.typ {
        Some(t) => {
            let t = t.as_str();
            if str_eq(t, "object") {
                match example_props(&a.properties, schemas, path) {
                    Some(ms) => Some(Some(JsonValue::Object(ms))),
                    None => None,
                }
            } else if str_eq(t, "array") {
                match &a.items {
                    Some(r) => match example_ref(r, schemas, path) {
                        None => None,
                        Some(Some(v)) => Some(Some(one_value(v))),
                        Some(None) => Some(Some(no_values())),
                    },
                    None => Some(Some(no_values())),
                }
            } else if str_eq(t, "string") {
                Some(Some(JsonValue::String(String::new())))
            } else if str_eq(t, "integer") || str_eq(t, "number") {
                Some(Some(num_text("0")))
            } else if str_eq(t, "boolean") {
                Some(Some(JsonValue::Bool(false)))
            } else {
                Some(None)
            }
        },
        None => Some(None),
    }
}

/// The members of the object example of some properties (see
/// `ex_props`); `None` when one has no end.
pub fn example_props(props: &Vec<(String, SchemaRef)>, schemas: &Vec<(String, SchemaRef)>, path: &Vec<String>) -> (res: Option<Vec<(String, JsonValue)>>)
    ensures
        match res {
            Some(ms) => ex_props(props@, schemas@, set_of(string_views(path@))) == Ex::Done(Some(Json::Object(members_of(ms@)))),
            None => !ends(ex_props(props@, schemas@, set_of(string_views(path@)))),
        },
    decreases unvisited(schemas@, set_of(string_views(path@))), props@,
{
    let ghost p = set_of(string_views(path@));
    let mut out: Vec<(String, JsonValue)> = Vec::new();
    let mut i: usize = 0;
    proof {
        lemma_members_of(out@);
        assert(props@.take(0) =~= Seq::<(String, SchemaRef)>::empty());
        assert(members_of(out@) =~= Seq::<(Seq<char>, Json)>::empty());
    }
    while i < props.len()
        invariant
            i <= props.len(),
            p == set_of(string_views(path@)),
            ex_props(props@.take(i as int), schemas@, p) == Ex::Done(Some(Json::Object(members_of(out@)))),
        decreases props.len() - i,
    {
        proof {
            assert(props@.take(i + 1).drop_last() =~= props@.take(i as int));
            assert(props@.take(i + 1).last() == props@[i as int]);
            assert(decreases_to!(props@ => props@[i as int]));
            assert(decreases_to!(props@[i as int] => props@[i as int].1));
        }
        match example_ref(&props[i].1, schemas, path) {
            None => {
                proof {
                    lemma_props_loops(props@, schemas@, p, i + 1);
                }
                return None;
            },
            Some(Some(v)) => {
                let pair = (props[i].0.clone(), v);
                let ghost before = out@;
                out.push(pair);
                proof {
                    crate::json::lemma_members_of_push(before, pair);
                    assert(out@ == before.push(pair));
                }
            },
            Some(None) => {},
        }
        i += 1;
    }
    proof {
        assert(props@.take(props.len() as int) =~= props@);
    }
    Some(out)
}

/// The members of the object examples of `list[from..]` (see `ex_merge`);
/// `None` when one has no end.
fn example_merge(list: &Vec<SchemaRef>, from: usize, schemas: &Vec<(String, SchemaRef)>, path: &Vec<String>) -> (res: Option<Vec<(String, JsonValue)>>)
    requires
        from <= list@.len(),
    ensures
        match res {
            Some(ms) => ex_merge(list@.skip(from as int), schemas@, set_of(string_views(path@))) == Ex::Done(Some(Json::Object(members_of(ms@)))),
            None => !ends(ex_merge(list@.skip(from as int), schemas@, set_of(string_views(path@)))),
        },
    decreases unvisited(schemas@, set_of(string_views(path@))), list@,
{
    let ghost p = set_of(string_views(path@));
    let ghost parts = list@.skip(from as int);
    let mut out: Vec<(String, JsonValue)> = Vec::new();
    let mut i: usize = from;
    proof {
        lemma_members_of(out@);
        assert(parts.take(0) =~= Seq::<SchemaRef>::empty());
        assert(members_of(out@) =~= Seq::<(Seq<char>, Json)>::empty());
    }
    while i < list.len()
        invariant
            from <= i <= list.len(),
            p == set_of(string_views(path@)),
            parts == list@.skip(from as int),
            ex_merge(parts.take(i - from), schemas@, p) == Ex::Done(Some(Json::Object(members_of(out@)))),
        decreases list.len() - i,
    {
        proof {
            assert(parts.take(i - from + 1).drop_last() =~= parts.take(i - from));
            assert(parts.take(i - from + 1).last() == list@[i as int]);
            assert(decreases_to!(list@ => list@[i as int]));
        }
        match example_ref(&list[i], schemas, path) {
            None => {
                proof {
                    lemma_merge_loops(parts, schemas@, p, i - from + 1);
                }
                return None;
            },
            Some(Some(JsonValue::Object(m))) => {
                let ghost before = out@;
                let mut m = m;
                let ghost mv = m@;
                out.append(&mut m);
                proof {
                    lemma_members_of(before);
                    lemma_members_of(mv);
                    lemma_members_of(out@);
                    assert(members_of(out@) =~= members_of(before) + members_of(mv));
                }
            },
            Some(_) => {},
        }
        i += 1;
    }
    proof {
        assert(parts.take(list.len() - from) =~= parts);
    }
    Some(out)
}

// ----- structure trees -----

/// The names on a stack of schema names.
pub open spec fn set_of(stack: Seq<Seq<char>>) -> Set<Seq<char>> {
    Set::new(|x: Seq<char>| stack.contains(x))
}

/// The names of a stack with one more name.
pub proof fn lemma_set_of_push(s: Seq<Seq<char>>, n: Seq<char>)
    ensures
        set_of(s.push(n)) == set_of(s).insert(n),
{
    assert forall|x: Seq<char>| set_of(s.push(n)).contains(x) == set_of(s).insert(n).contains(x) by {
        if s.contains(x) {
            let i = choose|i: int| 0 <= i < s.len() && s[i] == x;
            assert(s.push(n)[i] == x);
        }
        if x == n {
            assert(s.push(n)[s.len() as int] == n);
        }
        if s.push(n).contains(x) {
            let i = choose|i: int| 0 <= i < s.push(n).len() && s.push(n)[i] == x;
            if i < s.len() {
                assert(s[i] == x);
            }
        }
    }
    assert(set_of(s.push(n)) =~= set_of(s).insert(n));
}

/// Whether `key` is one of the required names.
pub open spec fn is_required(required: Seq<String>, key: Seq<char>) -> bool {
    exists|j: int| 0 <= j < required.len() && (#[trigger] required[j])@ == key
}

/// The text of a value's content: a string as it is, anything else as
/// compact JSON.
pub open spec fn text_of_json(j: Json) -> Seq<char> {
    match j {
        Json::Str(t) => t,
        _ => json_text(j),
    }
}

/// The example text of a leaf for a value (see `text_of_json`).
pub open spec fn value_example_text(v: JsonValue) -> Seq<char> {
    text_of_json(v@)
}

/// An optional text, or the empty text.
pub open spec fn text_or_empty(o: Option<String>) -> Seq<char> {
    match o {
        Some(t) => t@,
        None => Seq::empty(),
    }
}

/// A leaf node.
pub open spec fn leaf(field_type: Seq<char>, name: Seq<char>, description: Seq<char>, example: Seq<char>) -> Field {
    Field {
        key: Seq::empty(),
        name,
        required: false,
        field_type,
        example,
        description,
        children: Seq::empty(),
        items: None,
    }
}

/// A node with children or items.
pub open spec fn branch(field_type: Seq<char>, name: Seq<char>, description: Seq<char>, children: Seq<Field>, items: Option<Box<Field>>) -> Field {
    Field {
        key: Seq::empty(),
        name,
        required: false,
        field_type,
        example: Seq::empty(),
        description,
        children,
        items,
    }
}

/// The schema's own example value: its example, else its default.
pub open spec fn own_example(s: OaSchema) -> Option<JsonValue> {
    match s.example {
        Some(v) => Some(v),
        None => s.default,
    }
}

/// The node for a schema or reference (see `fd_schema`); a reference to a
/// schema already on the stack gives nothing.
pub open spec fn fd_ref(r: SchemaRef, schemas: Seq<(String, SchemaRef)>, stack: Seq<Seq<char>>) -> Option<Field>
    decreases unvisited(schemas, set_of(stack)), r,
{
    match r {
        SchemaRef::Item(b) => fd_schema(*b, schemas, stack),
        SchemaRef::Reference(t) => match ref_target(schemas, t@) {
            Some((name, s)) => if stack.contains(name) {
                None
            } else {
                proof {
                    lemma_follow(schemas, set_of(stack), name);
                    lemma_set_of_push(stack, name);
                }
                fd_schema(s, schemas, stack.push(name))
            },
            None => None,
        },
    }
}

/// The structure node for a schema, titled and described by it: leaves
/// for strings, integers, numbers and booleans with the schema's example
/// (else the first enumerated value) as text; objects with a child per
/// property that has a node (keyed, and marked required when listed);
/// arrays with their item node; the first alternative of `oneOf` /
/// `anyOf`; for `allOf` an object of the children of every object part,
/// the first of each key kept (nothing when there are none); nothing for
/// `not`; untyped schemas by their enumeration and type name.
pub open spec fn fd_schema(s: OaSchema, schemas: Seq<(String, SchemaRef)>, stack: Seq<Seq<char>>) -> Option<Field>
    decreases unvisited(schemas, set_of(stack)), s,
{
    let name = text_or_empty(s.title);
    let description = text_or_empty(s.description);
    match s.kind {
        OaSchemaKind::String(en) => Some(leaf("string"@, name, description, match own_example(s) {
            Some(v) => value_example_text(v),
            None => match first_some(en@) {
                Some(t) => t@,
                None => Seq::empty(),
            },
        })),
        OaSchemaKind::Integer(en) => Some(leaf("integer"@, name, description, match own_example(s) {
            Some(v) => value_example_text(v),
            None => match first_some(en@) {
                Some(n) => int_text(n),
                None => Seq::empty(),
            },
        })),
        OaSchemaKind::Number(en) => Some(leaf("number"@, name, description, match own_example(s) {
            Some(v) => value_example_text(v),
            None => match first_some(en@) {
                Some(v) => value_example_text(v),
                None => Seq::empty(),
            },
        })),
        OaSchemaKind::Boolean(en) => Some(leaf("boolean"@, name, description, match own_example(s) {
            Some(v) => value_example_text(v),
            None => match first_some(en@) {
                Some(b) => if b {
                    "true"@
                } else {
                    "false"@
                },
                None => Seq::empty(),
            },
        })),
        OaSchemaKind::Object(props, required, _) => {
            proof {
                assert(decreases_to!(s => s.kind));
                assert(decreases_to!(s.kind => props));
                assert(decreases_to!(props => props@));
            }
            Some(branch("object"@, name, description, fd_props(props@, required@, schemas, stack), None))
        },
        OaSchemaKind::Array(items) => {
            proof {
                assert(decreases_to!(s => s.kind));
                assert(decreases_to!(s.kind => items));
            }
            Some(branch("array"@, name, description, Seq::empty(), match items {
                Some(r) => match fd_ref(r, schemas, stack) {
                    Some(f) => Some(Box::new(f)),
                    None => None,
                },
                None => None,
            }))
        },
        OaSchemaKind::OneOf(list) => if list@.len() == 0 {
            None
        } else {
            proof {
                assert(decreases_to!(s => s.kind));
                assert(decreases_to!(s.kind => list));
                assert(decreases_to!(list => list@));
                assert(decreases_to!(list@ => list@[0]));
            }
            fd_ref(list@[0], schemas, stack)
        },
        OaSchemaKind::AnyOf(list) => if list@.len() == 0 {
            None
        } else {
            proof {
                assert(decreases_to!(s => s.kind));
                assert(decreases_to!(s.kind => list));
                assert(decreases_to!(list => list@));
                assert(decreases_to!(list@ => list@[0]));
            }
            fd_ref(list@[0], schemas, stack)
        },
        OaSchemaKind::AllOf(list) => {
            proof {
                assert(decreases_to!(s => s.kind));
                assert(decreases_to!(s.kind => list));
                assert(decreases_to!(list => list@));
            }
            let cs = first_keys(fd_merge(list@, schemas, stack));
            if cs.len() == 0 {
                None
            } else {
                Some(branch("object"@, name, description, cs, None))
            }
        },
        OaSchemaKind::Not => None,
        OaSchemaKind::Any(a) => {
            proof {
                assert(decreases_to!(s => s.kind));
                assert(decreases_to!(s.kind => a));
            }
            fd_any(a, name, description, schemas, stack)
        },
    }
}

/// The node for an untyped schema: a leaf of its type name (default
/// `string`) with its first enumerated value; else by type name an object,
/// an array, a `null` node or a leaf without example; nothing for any other
/// name.
pub open spec fn fd_any(a: OaAnySchema, name: Seq<char>, description: Seq<char>, schemas: Seq<(String, SchemaRef)>, stack: Seq<Seq<char>>) -> Option<Field>
    decreases unvisited(schemas, set_of(stack)), a,
{
    if a.enumeration@.len() > 0 {
        Some(leaf(str_or(match a.typ {
            Some(t) => Some(t@),
            None => None,
        }, "string"@), name, description, value_example_text(a.enumeration@[0])))
    } else {
        match a.typ {
            Some(t) => if t@ == "object"@ {
                proof {
                    assert(decreases_to!(a => a.properties));
                    assert(decreases_to!(a.properties => a.properties@));
                }
                Some(branch("object"@, name, description, fd_props(a.properties@, a.required@, schemas, stack), None))
            } else if t@ == "array"@ {
                Some(branch("array"@, name, description, Seq::empty(), match a.items {
                    Some(r) => match fd_ref(r, schemas, stack) {
                        Some(f) => Some(Box::new(f)),
                        None => None,
                    },
                    None => None,
                }))
            } else if t@ == "null"@ {
                Some(branch("null"@, name, description, Seq::empty(), None))
            } else if t@ == "string"@ || t@ == "integer"@ || t@ == "number"@ || t@ == "boolean"@ {
                Some(leaf(t@, name, description, Seq::empty()))
            } else {
                None
            },
            None => None,
        }
    }
}

/// A node keyed and marked required.
pub open spec fn keyed(f: Field, key: Seq<char>, required: bool) -> Field {
    Field {
        key,
        name: f.name,
        required,
        field_type: f.field_type,
        example: f.example,
        description: f.description,
        children: f.children,
        items: f.items,
    }
}

/// The children for some properties: each property with a node, keyed by
/// the property name and marked required when listed.
pub open spec fn fd_props(props: Seq<(String, SchemaRef)>, required: Seq<String>, schemas: Seq<(String, SchemaRef)>, stack: Seq<Seq<char>>) -> Seq<Field>
    decreases unvisited(schemas, set_of(stack)), props,
{
    if props.len() == 0 {
        Seq::empty()
    } else {
        proof {
            assert(decreases_to!(props => props.subrange(0, props.len() - 1)));
            assert(decreases_to!(props => props[props.len() - 1]));
            assert(decreases_to!(props[props.len() - 1] => props[props.len() - 1].1));
        }
        let rest = fd_props(props.drop_last(), required, schemas, stack);
        match fd_ref(props.last().1, schemas, stack) {
            Some(f) => rest.push(keyed(f, props.last().0@, is_required(required, props.last().0@))),
            None => rest,
        }
    }
}

/// The children of the object nodes of some parts, in order.
pub open spec fn fd_merge(parts: Seq<SchemaRef>, schemas: Seq<(String, SchemaRef)>, stack: Seq<Seq<char>>) -> Seq<Field>
    decreases unvisited(schemas, set_of(stack)), parts,
{
    if parts.len() == 0 {
        Seq::empty()
    } else {
        proof {
            assert(decreases_to!(parts => parts.subrange(0, parts.len() - 1)));
            assert(decreases_to!(parts => parts[parts.len() - 1]));
        }
        fd_merge(parts.drop_last(), schemas, stack) + match fd_ref(parts.last(), schemas, stack) {
            Some(f) => if f.field_type == "object"@ {
                f.children
            } else {
                Seq::empty()
            },
            None => Seq::empty(),
        }
    }
}

/// Whether some node of `cs` has the key `k`.
pub open spec fn has_key(cs: Seq<Field>, k: Seq<char>) -> bool {
    exists|j: int| 0 <= j < cs.len() && (#[trigger] cs[j]).key == k
}

/// The nodes with the first of each key kept.
pub open spec fn first_keys(cs: Seq<Field>) -> Seq<Field>
    decreases cs.len(),
{
    if cs.len() == 0 {
        cs
    } else {
        let rest = first_keys(cs.drop_last());
        if has_key(rest, cs.last().key) {
            rest
        } else {
            rest.push(cs.last())
        }
    }
}

/// The plain content of an optional node.
pub open spec fn opt_field(o: Option<BodyField>) -> Option<Field> {
    match o {
        Some(f) => Some(field_of(f)),
        None => None,
    }
}

/// The example text of a leaf for a value (see `value_example_text`).
pub(crate) fn example_text(v: &JsonValue) -> (r: String)
    ensures
        r@ == value_example_text(*v),
{
    match v {
        JsonValue::String(t) => t.clone(),
        _ => compact_json(v),
    }
}

fn text_or_empty_exec(o: &Option<String>) -> (r: String)
    ensures
        r@ == text_or_empty(*o),
{
    match o {
        Some(t) => t.clone(),
        None => String::new(),
    }
}

fn leaf_exec(field_type: String, name: String, description: String, example: String) -> (r: BodyField)
    ensures
        field_of(r) == leaf(field_type@, name@, description@, example@),
{
    let r = BodyField {
        key: String::new(),
        name,
        required: false,
        field_type,
        example,
        description,
        children: Vec::new(),
        items: None,
    };
    proof {
        assert(fields_of(r.children@) =~= Seq::<Field>::empty());
    }
    r
}

fn branch_exec(field_type: String, name: String, description: String, children: Vec<BodyField>, items: Option<Box<BodyField>>) -> (r: BodyField)
    ensures
        field_of(r) == branch(field_type@, name@, description@, fields_of(children@), match items {
            Some(b) => Some(Box::new(field_of(*b))),
            None => None,
        }),
{
    BodyField {
        key: String::new(),
        name,
        required: false,
        field_type,
        example: String::new(),
        description,
        children,
        items,
    }
}

fn own_example_exec(s: &OaSchema) -> (r: Option<&JsonValue>)
    ensures
        match r {
            Some(v) => own_example(*s) == Some(*v),
            None => own_example(*s).is_none(),
        },
{
    match &s.example {
        Some(v) => Some(v),
        None => match &s.default {
            Some(v) => Some(v),
            None => None,
        },
    }
}

pub(crate) fn contains_name(stack: &Vec<String>, name: &String) -> (r: bool)
    ensures
        r == string_views(stack@).contains(name@),
{
    let mut i: usize = 0;
    while i < stack.len()
        invariant
            i <= stack.len(),
            forall|j: int| 0 <= j < i ==> stack@[j]@ != name@,
        decreases stack.len() - i,
    {
        if str_eq(stack[i].as_str(), name.as_str()) {
            assert(string_views(stack@)[i as int] == name@);
            return true;
        }
        i += 1;
    }
    assert(!string_views(stack@).contains(name@)) by {
        if string_views(stack@).contains(name@) {
            let j = choose|j: int| 0 <= j < string_views(stack@).len() && string_views(stack@)[j] == name@;
            assert(stack@[j]@ == name@);
        }
    }
    false
}

fn is_required_exec(required: &Vec<String>, key: &String) -> (r: bool)
    ensures
        r == is_required(required@, key@),
{
    let mut i: usize = 0;
    while i < required.len()
        invariant
            i <= required.len(),
            forall|j: int| 0 <= j < i ==> required@[j]@ != key@,
        decreases required.len() - i,
    {
        if str_eq(required[i].as_str(), key.as_str()) {
            return true;
        }
        i += 1;
    }
    false
}

/// The node for a schema or reference (see `fd_ref`); `stack` holds the
/// component schemas being expanded.
pub fn field_ref(r: &SchemaRef, schemas: &Vec<(String, SchemaRef)>, stack: &Vec<String>) -> (res: Option<BodyField>)
    ensures
        opt_field(res) == fd_ref(*r, schemas@, string_views(stack@)),
    decreases unvisited(schemas@, set_of(string_views(stack@))), *r,
{
    match r {
        SchemaRef::Item(b) => field_schema(b, schemas, stack),
        SchemaRef::Reference(t) => match ref_target_exec(schemas, t.as_str()) {
            Some((name, i)) => {
                if contains_name(stack, &name) {
                    return None;
                }
                let mut next = copy_strings(stack);
                next.push(name.clone());
                proof {
                    assert(string_views(next@) =~= string_views(stack@).push(name@));
                    lemma_follow(schemas@, set_of(string_views(stack@)), name@);
                    lemma_set_of_push(string_views(stack@), name@);
                }
                match &schemas[i].1 {
                    SchemaRef::Item(b) => field_schema(b, schemas, &next),
                    SchemaRef::Reference(_) => None,
                }
            },
            None => None,
        },
    }
}

/// The structure node for a schema (see `fd_schema`).
pub fn field_schema(s: &OaSchema, schemas: &Vec<(String, SchemaRef)>, stack: &Vec<String>) -> (res: Option<BodyField>)
    ensures
        opt_field(res) == fd_schema(*s, schemas@, string_views(stack@)),
    decreases unvisited(schemas@, set_of(string_views(stack@))), *s,
{
    let name = text_or_empty_exec(&s.title);
    let description = text_or_empty_exec(&s.description);
    let own = own_example_exec(s);
    match &s.kind {
        OaSchemaKind::String(en) => {
            let example = match own {
                Some(v) => example_text(v),
                None => match first_some_string(en) {
                    Some(t) => t,
                    None => String::new(),
                },
            };
            Some(leaf_exec(owned("string"), name, description, example))
        },
        OaSchemaKind::Integer(en) => {
            let example = match own {
                Some(v) => example_text(v),
                None => match first_some_copy(en) {
                    Some(n) => int_json_text(n),
                    None => String::new(),
                },
            };
            Some(leaf_exec(owned("integer"), name, description, example))
        },
        OaSchemaKind::Number(en) => {
            let example = match own {
                Some(v) => example_text(v),
                None => match first_some_ref(en) {
                    Some(v) => example_text(v),
                    None => String::new(),
                },
            };
            Some(leaf_exec(owned("number"), name, description, example))
        },
        OaSchemaKind::Boolean(en) => {
            let example = match own {
                Some(v) => example_text(v),
                None => match first_some_copy(en) {
                    Some(b) => if b {
                        owned("true")
                    } else {
                        owned("false")
                    },
                    None => String::new(),
                },
            };
            Some(leaf_exec(owned("boolean"), name, description, example))
        },
        OaSchemaKind::Object(props, required, _) => {
            let children = field_props(props, required, schemas, stack);
            Some(branch_exec(owned("object"), name, description, children, None))
        },
        OaSchemaKind::Array(items) => {
            let it = match items {
                Some(r) => match field_ref(r, schemas, stack) {
                    Some(f) => Some(Box::new(f)),
                    None => None,
                },
                None => None,
            };
            let none: Vec<BodyField> = Vec::new();
            proof {
                assert(fields_of(none@) =~= Seq::<Field>::empty());
            }
            Some(branch_exec(owned("array"), name, description, none, it))
        },
        OaSchemaKind::OneOf(list) => if list.len() == 0 {
            None
        } else {
            field_ref(&list[0], schemas, stack)
        },
        OaSchemaKind::AnyOf(list) => if list.len() == 0 {
            None
        } else {
            field_ref(&list[0], schemas, stack)
        },
        OaSchemaKind::AllOf(list) => {
            let merged = field_merge(list, schemas, stack);
            let cs = first_keys_exec(merged);
            if cs.len() == 0 {
                proof {
                    lemma_fields_of(cs@);
                }
                None
            } else {
                proof {
                    lemma_fields_of(cs@);
                }
                Some(branch_exec(owned("object"), name, description, cs, None))
            }
        },
        OaSchemaKind::Not => None,
        OaSchemaKind::Any(a) => field_any(a, name, description, schemas, stack),
    }
}

fn first_some_ref(en: &Vec<Option<JsonValue>>) -> (r: Option<&JsonValue>)
    ensures
        match r {
            Some(v) => first_some(en@) == Some(*v),
            None => first_some(en@).is_none(),
        },
{
    let mut i: usize = 0;
    assert(en@.skip(0) =~= en@);
    while i < en.len()
        invariant
            i <= en.len(),
            first_some(en@) == first_some(en@.skip(i as int)),
        decreases en.len() - i,
    {
        assert(en@.skip(i as int).drop_first() =~= en@.skip(i + 1));
        assert(en@.skip(i as int)[0] == en@[i as int]);
        if let Some(v) = &en[i] {
            return Some(v);
        }
        i += 1;
    }
    assert(en@.skip(i as int) =~= Seq::<Option<JsonValue>>::empty());
    None
}

/// The node for an untyped schema (see `fd_any`).
fn field_any(a: &OaAnySchema, name: String, description: String, schemas: &Vec<(String, SchemaRef)>, stack: &Vec<String>) -> (res: Option<BodyField>)
    ensures
        opt_field(res) == fd_any(*a, name@, description@, schemas@, string_views(stack@)),
    decreases unvisited(schemas@, set_of(string_views(stack@))), *a,
{
    if a.enumeration.len() > 0 {
        let t = match &a.typ {
            Some(t) => t.clone(),
            None => owned("string"),
        };
        let example = example_text(&a.enumeration[0]);
        return Some(leaf_exec(t, name, description, example));
    }
    match &a.typ {
        Some(t) => {
            let ts = t.as_str();
            if str_eq(ts, "object") {
                let children = field_props(&a.properties, &a.required, schemas, stack);
                Some(branch_exec(owned("object"), name, description, children, None))
            } else if str_eq(ts, "array") {
                let it = match &a.items {
                    Some(r) => match field_ref(r, schemas, stack) {
                        Some(f) => Some(Box::new(f)),
                        None => None,
                    },
                    None => None,
                };
                let none: Vec<BodyField> = Vec::new();
                proof {
                    assert(fields_of(none@) =~= Seq::<Field>::empty());
                }
                Some(branch_exec(owned("array"), name, description, none, it))
            } else if str_eq(ts, "null") {
                let none: Vec<BodyField> = Vec::new();
                proof {
                    assert(fields_of(none@) =~= Seq::<Field>::empty());
                }
                Some(branch_exec(owned("null"), name, description, none, None))
            } else if str_eq(ts, "string") || str_eq(ts, "integer") || str_eq(ts, "number") || str_eq(ts, "boolean") {
                Some(leaf_exec(t.clone(), name, description, String::new()))
            } else {
                None
            }
        },
        None => None,
    }
}

/// The children for some properties (see `fd_props`).
fn field_props(props: &Vec<(String, SchemaRef)>, required: &Vec<String>, schemas: &Vec<(String, SchemaRef)>, stack: &Vec<String>) -> (res: Vec<BodyField>)
    ensures
        fields_of(res@) == fd_props(props@, required@, schemas@, string_views(stack@)),
    decreases unvisited(schemas@, set_of(string_views(stack@))), props@,
{
    let mut out: Vec<BodyField> = Vec::new();
    let mut i: usize = 0;
    proof {
        assert(props@.take(0) =~= Seq::<(String, SchemaRef)>::empty());
        assert(fields_of(out@) =~= Seq::<Field>::empty());
    }
    while i < props.len()
        invariant
            i <= props.len(),
            fields_of(out@) == fd_props(props@.take(i as int), required@, schemas@, string_views(stack@)),
        decreases props.len() - i,
    {
        proof {
            assert(props@.take(i + 1).drop_last() =~= props@.take(i as int));
            assert(props@.take(i + 1).last() == props@[i as int]);
            assert(decreases_to!(props@ => props@[i as int]));
            assert(decreases_to!(props@[i as int] => props@[i as int].1));
        }
        match field_ref(&props[i].1, schemas, stack) {
            Some(f) => {
                let mut f = f;
                f.key = props[i].0.clone();
                f.required = is_required_exec(required, &props[i].0);
                let ghost before = out@;
                out.push(f);
                proof {
                    lemma_fields_of_push(before, f);
                    assert(out@ == before.push(f));
                }
            },
            None => {},
        }
        i += 1;
    }
    proof {
        assert(props@.take(props.len() as int) =~= props@);
    }
    out
}

/// The children of the object nodes of some parts (see `fd_merge`).
fn field_merge(list: &Vec<SchemaRef>, schemas: &Vec<(String, SchemaRef)>, stack: &Vec<String>) -> (res: Vec<BodyField>)
    ensures
        fields_of(res@) == fd_merge(list@, schemas@, string_views(stack@)),
    decreases unvisited(schemas@, set_of(string_views(stack@))), list@,
{
    let mut out: Vec<BodyField> = Vec::new();
    let mut i: usize = 0;
    proof {
        assert(list@.take(0) =~= Seq::<SchemaRef>::empty());
        assert(fields_of(out@) =~= Seq::<Field>::empty());
    }
    while i < list.len()
        invariant
            i <= list.len(),
            fields_of(out@) == fd_merge(list@.take(i as int), schemas@, string_views(stack@)),
        decreases list.len() - i,
    {
        proof {
            assert(list@.take(i + 1).drop_last() =~= list@.take(i as int));
            assert(list@.take(i + 1).last() == list@[i as int]);
            assert(decreases_to!(list@ => list@[i as int]));
        }
        let ghost before = out@;
        match field_ref(&list[i], schemas, stack) {
            Some(f) => {
                if str_eq(f.field_type.as_str(), "object") {
                    let mut cs = f.children;
                    let ghost cv = cs@;
                    out.append(&mut cs);
                    proof {
                        lemma_fields_of(before);
                        lemma_fields_of(cv);
                        lemma_fields_of(out@);
                        assert(fields_of(out@) =~= fields_of(before) + fields_of(cv));
                    }
                } else {
                    assert(fields_of(out@) =~= fields_of(before) + Seq::<Field>::empty());
                }
            },
            None => {
                assert(fields_of(out@) =~= fields_of(before) + Seq::<Field>::empty());
            },
        }
        i += 1;
    }
    proof {
        assert(list@.take(list.len() as int) =~= list@);
    }
    out
}

/// Keeps the first node of each key (see `first_keys`).
fn first_keys_exec(cs: Vec<BodyField>) -> (res: Vec<BodyField>)
    ensures
        fields_of(res@) == first_keys(fields_of(cs@)),
{
    let ghost cv = fields_of(cs@);
    proof {
        lemma_fields_of(cs@);
    }
    let total = cs.len();
    let mut rest = cs;
    let ghost orig = rest@;
    let mut out: Vec<BodyField> = Vec::new();
    let mut i: usize = 0;
    proof {
        assert(cv.take(0) =~= Seq::<Field>::empty());
        assert(fields_of(out@) =~= Seq::<Field>::empty());
    }
    while rest.len() > 0
        invariant
            orig.len() == total,
            i + rest@.len() == total,
            rest@ == orig.skip(i as int),
            cv == fields_of(orig),
            cv.len() == orig.len(),
            forall|j: int| 0 <= j < orig.len() ==> #[trigger] cv[j] == field_of(orig[j]),
            fields_of(out@) == first_keys(cv.take(i as int)),
        decreases rest@.len(),
    {
        let c = rest.remove(0);
        proof {
            assert(c == orig[i as int]);
            assert(cv.take(i + 1).drop_last() =~= cv.take(i as int));
            assert(cv.take(i + 1).last() == field_of(c));
            lemma_fields_of(out@);
        }
        let mut dup = false;
        let mut j: usize = 0;
        while j < out.len()
            invariant
                j <= out.len(),
                fields_of(out@).len() == out@.len(),
                forall|k: int| 0 <= k < out@.len() ==> #[trigger] fields_of(out@)[k] == field_of(out@[k]),
                dup == exists|k: int| 0 <= k < j && (#[trigger] fields_of(out@)[k]).key == c.key@,
            decreases out.len() - j,
        {
            if str_eq(out[j].key.as_str(), c.key.as_str()) {
                assert(fields_of(out@)[j as int].key == c.key@);
                dup = true;
            }
            j += 1;
        }
        proof {
            assert(dup == has_key(fields_of(out@), field_of(c).key));
        }
        if !dup {
            let ghost before = out@;
            out.push(c);
            proof {
                lemma_fields_of_push(before, c);
                assert(out@ == before.push(c));
            }
        }
        proof {
            assert(rest@ =~= orig.skip(i + 1));
        }
        i += 1;
    }
    proof {
        assert(cv.take(total as int) =~= cv);
    }
    out
}

// ----- trees from values -----

/// The digits of a JSON integer: at least one digit, no leading zero.
pub open spec fn json_int_digits(d: Seq<char>) -> bool {
    &&& d.len() > 0
    &&& forall|i: int| 0 <= i < d.len() ==> '0' <= #[trigger] d[i] <= '9'
    &&& (d[0] != '0' || d.len() == 1)
}

/// Whether `serde_json` reads a text as a number that is an `i64`
/// (`Number::from_str`, then `Number::is_i64`): an integer without fraction
/// or exponent, optionally negative, between `i64::MIN` and `i64::MAX`;
/// `-0` is read as a float.
pub open spec fn number_is_i64(text: Seq<char>) -> bool {
    if text.len() > 0 && text[0] == '-' {
        let d = text.skip(1);
        json_int_digits(d) && 1 <= crate::jsonpath::digits_value(d) <= 0x8000_0000_0000_0000
    } else {
        json_int_digits(text) && crate::jsonpath::digits_value(text) <= i64::MAX
    }
}

/// `serde_json::Number::from_str` then `Number::is_i64` (`false` when the
/// text is not a JSON number); see `number_is_i64`.
#[verifier::external_body]
fn is_i64_number(text: &str) -> (r: bool)
    ensures
        r == number_is_i64(text@),
{
    match text.parse::<serde_json::Number>() {
        Ok(n) => n.is_i64(),
        Err(_) => false,
    }
}

/// The structure node for a value: `null`, an object with a child per
/// member (keyed by the member name), an array with a node for its first
/// element, or a leaf (`string`, `integer` / `number` by whether the number
/// is an `i64`, `boolean`) whose example is the value's text.
pub open spec fn vf(v: JsonValue) -> Field
    decreases v,
{
    match v {
        JsonValue::Null => branch("null"@, Seq::empty(), Seq::empty(), Seq::empty(), None),
        JsonValue::Object(m) => {
            proof {
                assert(decreases_to!(v => m));
                assert(decreases_to!(m => m@));
            }
            branch("object"@, Seq::empty(), Seq::empty(), vf_members(m@), None)
        },
        JsonValue::Array(a) => {
            proof {
                assert(decreases_to!(v => a));
                assert(decreases_to!(a => a@));
            }
            branch("array"@, Seq::empty(), Seq::empty(), Seq::empty(), if a@.len() > 0 {
                proof {
                    assert(decreases_to!(a@ => a@[0]));
                }
                Some(Box::new(vf(a@[0])))
            } else {
                None
            })
        },
        JsonValue::String(t) => leaf("string"@, Seq::empty(), Seq::empty(), t@),
        JsonValue::Number(t) => leaf(if number_is_i64(t@) {
            "integer"@
        } else {
            "number"@
        }, Seq::empty(), Seq::empty(), json_text(v@)),
        JsonValue::Bool(_) => leaf("boolean"@, Seq::empty(), Seq::empty(), json_text(v@)),
    }
}

/// The children for object members (see `vf`).
pub open spec fn vf_members(m: Seq<(String, JsonValue)>) -> Seq<Field>
    decreases m,
{
    if m.len() == 0 {
        Seq::empty()
    } else {
        proof {
            assert(decreases_to!(m => m.subrange(0, m.len() - 1)));
            assert(decreases_to!(m => m[m.len() - 1]));
            assert(decreases_to!(m[m.len() - 1] => m[m.len() - 1].1));
        }
        let f = vf(m.last().1);
        vf_members(m.drop_last()).push(keyed(f, m.last().0@, f.required))
    }
}

/// The structure node for a value (see `vf`).
pub fn value_to_field(v: &JsonValue) -> (r: BodyField)
    ensures
        field_of(r) == vf(*v),
    decreases v,
{
    match v {
        JsonValue::Null => {
            let none: Vec<BodyField> = Vec::new();
            proof {
                assert(fields_of(none@) =~= Seq::<Field>::empty());
            }
            branch_exec(owned("null"), String::new(), String::new(), none, None)
        },
        JsonValue::Object(m) => {
            let mut out: Vec<BodyField> = Vec::new();
            let mut i: usize = 0;
            proof {
                assert(m@.take(0) =~= Seq::<(String, JsonValue)>::empty());
                assert(fields_of(out@) =~= Seq::<Field>::empty());
            }
            while i < m.len()
                invariant
                    i <= m.len(),
                    *v == JsonValue::Object(*m),
                    fields_of(out@) == vf_members(m@.take(i as int)),
                decreases m.len() - i,
            {
                proof {
                    assert(m@.take(i + 1).drop_last() =~= m@.take(i as int));
                    assert(m@.take(i + 1).last() == m@[i as int]);
                    assert(decreases_to!(*v => v->Object_0));
                    assert(decreases_to!(v->Object_0 => v->Object_0@));
                    assert(decreases_to!(v->Object_0@ => v->Object_0@[i as int]));
                    assert(decreases_to!(v->Object_0@[i as int] => v->Object_0@[i as int].1));
                }
                let mut f = value_to_field(&m[i].1);
                f.key = m[i].0.clone();
                let ghost before = out@;
                out.push(f);
                proof {
                    lemma_fields_of_push(before, f);
                    assert(out@ == before.push(f));
                }
                i += 1;
            }
            proof {
                assert(m@.take(m.len() as int) =~= m@);
            }
            branch_exec(owned("object"), String::new(), String::new(), out, None)
        },
        JsonValue::Array(a) => {
            let it = if a.len() > 0 {
                proof {
                    assert(decreases_to!(*v => v->Array_0));
                    assert(decreases_to!(v->Array_0 => v->Array_0@));
                    assert(decreases_to!(v->Array_0@ => v->Array_0@[0]));
                }
                Some(Box::new(value_to_field(&a[0])))
            } else {
                None
            };
            let none: Vec<BodyField> = Vec::new();
            proof {
                assert(fields_of(none@) =~= Seq::<Field>::empty());
            }
            branch_exec(owned("array"), String::new(), String::new(), none, it)
        },
        JsonValue::String(t) => leaf_exec(owned("string"), String::new(), String::new(), t.clone()),
        JsonValue::Number(t) => {
            let ty = if is_i64_number(t.as_str()) {
                owned("integer")
            } else {
                owned("number")
            };
            leaf_exec(ty, String::new(), String::new(), compact_json(v))
        },
        JsonValue::Bool(_) => leaf_exec(owned("boolean"), String::new(), String::new(), compact_json(v)),
    }
}

// ----- parameter types -----

/// The parameter type named by a schema: the type of a typed schema, the
/// type of an inline first alternative of `oneOf` / `anyOf`, the type name
/// of an untyped schema; `string` otherwise.
pub open spec fn param_type_of(s: OaSchema) -> Seq<char>
    decreases s,
{
    match s.kind {
        OaSchemaKind::String(_) => "string"@,
        OaSchemaKind::Integer(_) => "integer"@,
        OaSchemaKind::Number(_) => "number"@,
        OaSchemaKind::Boolean(_) => "boolean"@,
        OaSchemaKind::Object(..) => "object"@,
        OaSchemaKind::Array(_) => "array"@,
        OaSchemaKind::OneOf(list) => first_item_type(list@),
        OaSchemaKind::AnyOf(list) => first_item_type(list@),
        OaSchemaKind::Any(a) => str_or(match a.typ {
            Some(t) => Some(t@),
            None => None,
        }, "string"@),
        _ => "string"@,
    }
}

/// The type of the first alternative when it is inline; `string` otherwise.
pub open spec fn first_item_type(list: Seq<SchemaRef>) -> Seq<char>
    decreases list,
{
    if list.len() > 0 {
        match list[0] {
            SchemaRef::Item(b) => {
                proof {
                    assert(decreases_to!(list => list[0]));
                }
                param_type_of(*b)
            },
            SchemaRef::Reference(_) => "string"@,
        }
    } else {
        "string"@
    }
}

/// See `param_type_of`.
pub fn schema_type_name(s: &OaSchema) -> (r: String)
    ensures
        r@ == param_type_of(*s),
    decreases s,
{
    match &s.kind {
        OaSchemaKind::String(_) => owned("string"),
        OaSchemaKind::Integer(_) => owned("integer"),
        OaSchemaKind::Number(_) => owned("number"),
        OaSchemaKind::Boolean(_) => owned("boolean"),
        OaSchemaKind::Object(..) => owned("object"),
        OaSchemaKind::Array(_) => owned("array"),
        OaSchemaKind::OneOf(list) | OaSchemaKind::AnyOf(list) => {
            if list.len() > 0 {
                match &list[0] {
                    SchemaRef::Item(b) => {
                        proof {
                            assert(decreases_to!(*s => s.kind));
                        }
                        schema_type_name(b)
                    },
                    SchemaRef::Reference(_) => owned("string"),
                }
            } else {
                owned("string")
            }
        },
        OaSchemaKind::Any(a) => match &a.typ {
            Some(t) => t.clone(),
            None => owned("string"),
        },
        _ => owned("string"),
    }
}

} // verus!
