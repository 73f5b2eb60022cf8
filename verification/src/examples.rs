//! The example payload of a JSON structure tree: objects list their keyed
//! children, arrays their one item, leaves their example. Numeric leaves are
//! written from a table of number texts, read from the examples by the
//! caller.

use vstd::prelude::*;

use crate::domain::{json_body_is_empty, lowercase, owned, str_eq, to_lowercase, Body, BodyField};
use crate::json::{
    json_pretty_text, lemma_jsons_of_push, lemma_members_of_push, jsons_of, members_of, Json, JsonValue,
};
use crate::text::{is_blank, string_of, trim, trim_chars};

verus! {

// ----- the numeric leaves -----

/// The numeric leaves of a tree in the order the payload lists them: each
/// as whether it is an integer, and its example.
pub open spec fn numeric_leaves(f: BodyField) -> Seq<(bool, Seq<char>)>
    decreases f,
{
    let ft = f.field_type@;
    if ft == "object"@ {
        proof {
            assert(decreases_to!(f => f.children));
            assert(decreases_to!(f.children => f.children@));
        }
        child_leaves(f.children@)
    } else if ft == "array"@ {
        match f.items {
            Some(b) => {
                proof {
                    assert(decreases_to!(f => f.items));
                }
                numeric_leaves(*b)
            },
            None => Seq::empty(),
        }
    } else if ft == "integer"@ {
        seq![(true, f.example@)]
    } else if ft == "number"@ {
        seq![(false, f.example@)]
    } else {
        Seq::empty()
    }
}

/// The numeric leaves under the children with a non-blank key.
pub open spec fn child_leaves(cs: Seq<BodyField>) -> Seq<(bool, Seq<char>)>
    decreases cs,
{
    if cs.len() == 0 {
        Seq::empty()
    } else {
        proof {
            assert(decreases_to!(cs => cs.subrange(0, cs.len() - 1)));
            assert(decreases_to!(cs => cs[cs.len() - 1]));
        }
        let rest = child_leaves(cs.drop_last());
        let c = cs.last();
        if trim(c.key@).len() == 0 {
            rest
        } else {
            rest + numeric_leaves(c)
        }
    }
}

/// The plain content of a list of leaves.
pub open spec fn leaves_view(v: Seq<(bool, String)>) -> Seq<(bool, Seq<char>)> {
    v.map_values(|x: (bool, String)| (x.0, x.1@))
}

fn push_leaf(out: &mut Vec<(bool, String)>, integer: bool, example: &String)
    ensures
        leaves_view(final(out)@) == leaves_view(old(out)@).push((integer, example@)),
{
    out.push((integer, example.clone()));
    proof {
        assert(leaves_view(out@) =~= leaves_view(old(out)@).push((integer, example@)));
    }
}

/// Appends the numeric leaves of `f` to `out`.
fn push_numeric_leaves(f: &BodyField, out: &mut Vec<(bool, String)>)
    ensures
        leaves_view(final(out)@) == leaves_view(old(out)@) + numeric_leaves(*f),
    decreases f,
{
    let ft = f.field_type.as_str();
    if str_eq(ft, "object") {
        let mut i: usize = 0;
        proof {
            assert(f.children@.take(0) =~= Seq::<BodyField>::empty());
            assert(leaves_view(out@) =~= leaves_view(old(out)@) + Seq::<(bool, Seq<char>)>::empty());
        }
        while i < f.children.len()
            invariant
                i <= f.children.len(),
                leaves_view(out@) == leaves_view(old(out)@) + child_leaves(f.children@.take(i as int)),
            decreases f.children.len() - i,
        {
            proof {
                assert(f.children@.take(i + 1).drop_last() =~= f.children@.take(i as int));
                assert(f.children@.take(i + 1).last() == f.children@[i as int]);
                assert(decreases_to!(*f => f.children));
                assert(decreases_to!(f.children => f.children@));
                assert(decreases_to!(f.children@ => f.children@[i as int]));
            }
            let c = &f.children[i];
            if !is_blank(c.key.as_str()) {
                let ghost before = leaves_view(out@);
                push_numeric_leaves(c, out);
                proof {
                    assert(leaves_view(out@) =~= leaves_view(old(out)@) + (child_leaves(f.children@.take(i as int))
                        + numeric_leaves(*c)));
                }
            }
            i += 1;
        }
        proof {
            assert(f.children@.take(f.children.len() as int) =~= f.children@);
        }
    } else if str_eq(ft, "array") {
        match &f.items {
            Some(b) => {
                push_numeric_leaves(b, out);
            },
            None => {
                proof {
                    assert(leaves_view(out@) =~= leaves_view(old(out)@) + Seq::<(bool, Seq<char>)>::empty());
                }
            },
        }
    } else if str_eq(ft, "integer") {
        push_leaf(out, true, &f.example);
    } else if str_eq(ft, "number") {
        push_leaf(out, false, &f.example);
    } else {
        proof {
            assert(leaves_view(out@) =~= leaves_view(old(out)@) + Seq::<(bool, Seq<char>)>::empty());
        }
    }
}

/// The numeric leaves of a structure tree (see `numeric_leaves`): what the
/// caller reads numbers from before `example_value`.
pub fn numeric_examples(f: &BodyField) -> (r: Vec<(bool, String)>)
    ensures
        leaves_view(r@) == numeric_leaves(*f),
{
    let mut out: Vec<(bool, String)> = Vec::new();
    proof {
        assert(leaves_view(out@) =~= Seq::<(bool, Seq<char>)>::empty());
    }
    push_numeric_leaves(f, &mut out);
    proof {
        assert(Seq::<(bool, Seq<char>)>::empty() + numeric_leaves(*f) =~= numeric_leaves(*f));
    }
    out
}

// ----- the payload -----

/// The plain content of a table of number texts: whether the leaf is an
/// integer, its example, and the JSON number text to write for it.
pub open spec fn table_view(t: Seq<(bool, String, String)>) -> Seq<(bool, Seq<char>, Seq<char>)> {
    t.map_values(|x: (bool, String, String)| (x.0, x.1@, x.2@))
}

/// The number text the table gives for a leaf: that of its first entry for
/// the same kind and example, `0` when there is none.
pub open spec fn number_for(table: Seq<(bool, Seq<char>, Seq<char>)>, integer: bool, example: Seq<char>) -> Seq<char>
    decreases table.len(),
{
    if table.len() == 0 {
        "0"@
    } else if table[0].0 == integer && table[0].1 == example {
        table[0].2
    } else {
        number_for(table.drop_first(), integer, example)
    }
}

/// Whether a trimmed, lower-cased example reads as `true`.
pub open spec fn is_true_word(s: Seq<char>) -> bool {
    s == "true"@ || s == "1"@ || s == "yes"@ || s == "y"@ || s == "on"@
}

/// The example payload of a structure node: an object of its children with
/// a non-blank key, an array of its item (empty without one), the table's
/// number for a numeric leaf, `true` for a boolean whose example reads as
/// true (false otherwise), `null`, or else the example as a string.
pub open spec fn example_json(f: BodyField, table: Seq<(bool, Seq<char>, Seq<char>)>) -> Json
    decreases f,
{
    let ft = f.field_type@;
    if ft == "object"@ {
        proof {
            assert(decreases_to!(f => f.children));
            assert(decreases_to!(f.children => f.children@));
        }
        Json::Object(child_examples(f.children@, table))
    } else if ft == "array"@ {
        match f.items {
            Some(b) => {
                proof {
                    assert(decreases_to!(f => f.items));
                }
                Json::Array(seq![example_json(*b, table)])
            },
            None => Json::Array(Seq::empty()),
        }
    } else if ft == "integer"@ {
        Json::Number(number_for(table, true, f.example@))
    } else if ft == "number"@ {
        Json::Number(number_for(table, false, f.example@))
    } else if ft == "boolean"@ {
        Json::Bool(is_true_word(lowercase(trim(f.example@))))
    } else if ft == "null"@ {
        Json::Null
    } else {
        Json::Str(f.example@)
    }
}

/// The members for the children with a non-blank key, in order.
pub open spec fn child_examples(cs: Seq<BodyField>, table: Seq<(bool, Seq<char>, Seq<char>)>) -> Seq<(Seq<char>, Json)>
    decreases cs,
{
    if cs.len() == 0 {
        Seq::empty()
    } else {
        proof {
            assert(decreases_to!(cs => cs.subrange(0, cs.len() - 1)));
            assert(decreases_to!(cs => cs[cs.len() - 1]));
        }
        let rest = child_examples(cs.drop_last(), table);
        let c = cs.last();
        if trim(c.key@).len() == 0 {
            rest
        } else {
            rest.push((c.key@, example_json(c, table)))
        }
    }
}

fn number_text(table: &Vec<(bool, String, String)>, integer: bool, example: &String) -> (r: String)
    ensures
        r@ == number_for(table_view(table@), integer, example@),
{
    let mut i: usize = 0;
    proof {
        assert(table_view(table@).skip(0) =~= table_view(table@));
    }
    while i < table.len()
        invariant
            i <= table.len(),
            number_for(table_view(table@), integer, example@) == number_for(table_view(table@).skip(i as int), integer, example@),
        decreases table.len() - i,
    {
        proof {
            assert(table_view(table@).skip(i as int)[0] == table_view(table@)[i as int]);
            assert(table_view(table@).skip(i as int).drop_first() =~= table_view(table@).skip(i + 1));
        }
        if table[i].0 == integer && str_eq(table[i].1.as_str(), example.as_str()) {
            return table[i].2.clone();
        }
        i += 1;
    }
    proof {
        assert(table_view(table@).skip(i as int) =~= Seq::<(bool, Seq<char>, Seq<char>)>::empty());
    }
    owned("0")
}

fn reads_true(example: &String) -> (r: bool)
    ensures
        r == is_true_word(lowercase(trim(example@))),
{
    let t = string_of(&trim_chars(example.as_str()));
    let l = to_lowercase(t.as_str());
    let s = l.as_str();
    str_eq(s, "true") || str_eq(s, "1") || str_eq(s, "yes") || str_eq(s, "y") || str_eq(s, "on")
}

/// The example payload of a structure tree (see `example_json`), numeric
/// leaves written from `table` (whether the leaf is an integer, its
/// example, the number text).
pub fn example_value(f: &BodyField, table: &Vec<(bool, String, String)>) -> (r: JsonValue)
    ensures
        r@ == example_json(*f, table_view(table@)),
    decreases f,
{
    let ft = f.field_type.as_str();
    if str_eq(ft, "object") {
        let mut m: Vec<(String, JsonValue)> = Vec::new();
        let mut i: usize = 0;
        proof {
            assert(f.children@.take(0) =~= Seq::<BodyField>::empty());
            assert(m@ =~= Seq::<(String, JsonValue)>::empty());
        }
        while i < f.children.len()
            invariant
                i <= f.children.len(),
                members_of(m@) == child_examples(f.children@.take(i as int), table_view(table@)),
            decreases f.children.len() - i,
        {
            proof {
                assert(f.children@.take(i + 1).drop_last() =~= f.children@.take(i as int));
                assert(f.children@.take(i + 1).last() == f.children@[i as int]);
                assert(decreases_to!(*f => f.children));
                assert(decreases_to!(f.children => f.children@));
                assert(decreases_to!(f.children@ => f.children@[i as int]));
            }
            let c = &f.children[i];
            if !is_blank(c.key.as_str()) {
                let v = example_value(c, table);
                let ghost before = m@;
                m.push((c.key.clone(), v));
                proof {
                    lemma_members_of_push(before, m@.last());
                    assert(m@ == before.push(m@.last()));
                }
            }
            i += 1;
        }
        proof {
            assert(f.children@.take(f.children.len() as int) =~= f.children@);
        }
        JsonValue::Object(m)
    } else if str_eq(ft, "array") {
        let mut a: Vec<JsonValue> = Vec::new();
        proof {
            assert(a@ =~= Seq::<JsonValue>::empty());
        }
        match &f.items {
            Some(b) => {
                let v = example_value(b, table);
                a.push(v);
                proof {
                    lemma_jsons_of_push(Seq::<JsonValue>::empty(), v);
                    assert(a@ =~= Seq::<JsonValue>::empty().push(v));
                    assert(jsons_of(Seq::<JsonValue>::empty()) =~= Seq::<Json>::empty());
                    assert(jsons_of(a@) =~= seq![example_json(**b, table_view(table@))]);
                }
            },
            None => {
                proof {
                    assert(jsons_of(a@) =~= Seq::<Json>::empty());
                }
            },
        }
        JsonValue::Array(a)
    } else if str_eq(ft, "integer") {
        JsonValue::Number(number_text(table, true, &f.example))
    } else if str_eq(ft, "number") {
        JsonValue::Number(number_text(table, false, &f.example))
    } else if str_eq(ft, "boolean") {
        JsonValue::Bool(reads_true(&f.example))
    } else if str_eq(ft, "null") {
        JsonValue::Null
    } else {
        JsonValue::String(f.example.clone())
    }
}

/// The example payload text of a body: only for a `json` body with a
/// non-empty tree (see `json_body_is_empty`), the indented JSON text of its
/// example payload (`example_value`); none otherwise, or when writing the
/// text fails.
pub fn json_example_payload(body: &Body, table: &Vec<(bool, String, String)>) -> (r: Option<String>)
    ensures
        match r {
            Some(t) => {
                &&& body.mode@ == "json"@
                &&& !json_body_is_empty(body.json.root)
                &&& json_pretty_text(example_json(body.json.root, table_view(table@))) == Ok::<Seq<char>, Seq<char>>(t@)
            },
            None => body.mode@ != "json"@ || json_body_is_empty(body.json.root) || json_pretty_text(
                example_json(body.json.root, table_view(table@)),
            ) is Err,
        },
{
    if !str_eq(body.mode.as_str(), "json") || body.json.is_empty() {
        return None;
    }
    let v = example_value(&body.json.root, table);
    match v.to_pretty_text() {
        Ok(t) => Some(t),
        Err(_) => None,
    }
}

} // verus!
