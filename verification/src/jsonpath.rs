//! A small JSONPath subset: `$.a.b`, `.a`, `['a']`, `["a"]`, `[n]`, `[*]`,
//! `.*` and `..` (one level of wildcard), bare keys.

use vstd::prelude::*;

use crate::json::JsonValue;
use crate::text::{chars_of, string_of, string_views};

verus! {

/// A path token.
pub enum PathToken {
    /// `$`
    Root,
    /// A member name.
    Key(Seq<char>),
    /// An array index.
    Index(nat),
    /// All members or elements.
    Wildcard,
    /// The scanner stopped on a character no rule consumes: from here on it
    /// yields empty keys without moving.
    Stuck,
}

/// ASCII whitespace (`u8::is_ascii_whitespace`).
pub open spec fn is_ascii_ws(c: char) -> bool {
    c == ' ' || c == '\t' || c == '\n' || c == '\x0C' || c == '\r'
}

/// Characters of an unquoted key.
pub open spec fn is_key_char(c: char) -> bool {
    ('a' <= c <= 'z') || ('A' <= c <= 'Z') || ('0' <= c <= '9') || c == '_' || c == '-'
}

/// The first position from `pos` on that is not ASCII whitespace.
pub open spec fn skip_ws(p: Seq<char>, pos: int) -> int
    decreases p.len() - pos,
{
    if 0 <= pos < p.len() && is_ascii_ws(p[pos]) {
        skip_ws(p, pos + 1)
    } else {
        pos
    }
}

/// The end of the run of key characters starting at `pos`.
pub open spec fn scan_key(p: Seq<char>, pos: int) -> int
    decreases p.len() - pos,
{
    if 0 <= pos < p.len() && is_key_char(p[pos]) {
        scan_key(p, pos + 1)
    } else {
        pos
    }
}

/// The first position from `pos` on holding `q` (or the end).
pub open spec fn scan_until(p: Seq<char>, pos: int, q: char) -> int
    decreases p.len() - pos,
{
    if 0 <= pos < p.len() && p[pos] != q {
        scan_until(p, pos + 1, q)
    } else {
        pos
    }
}

/// The end of the run of ASCII digits starting at `pos`.
pub open spec fn scan_digits(p: Seq<char>, pos: int) -> int
    decreases p.len() - pos,
{
    if 0 <= pos < p.len() && '0' <= p[pos] <= '9' {
        scan_digits(p, pos + 1)
    } else {
        pos
    }
}

/// The value of a run of decimal digits.
pub open spec fn digits_value(d: Seq<char>) -> nat
    decreases d.len(),
{
    if d.len() == 0 {
        0
    } else {
        digits_value(d.drop_last()) * 10 + ((d.last() as u32) - ('0' as u32)) as nat
    }
}

/// `usize` parsing of a run of digits, `0` when it fails (empty or too
/// large).
pub open spec fn index_value(d: Seq<char>) -> nat {
    if d.len() > 0 && digits_value(d) <= usize::MAX {
        digits_value(d)
    } else {
        0
    }
}

/// The next token from position `pos` and where scanning goes on; `None`
/// at the end of the path. `[*` takes the character after the `*` (its
/// closing `]`) along.
pub open spec fn next_token(p: Seq<char>, pos: int) -> Option<(PathToken, int)> {
    {
        let q = skip_ws(p, pos);
        if q >= p.len() {
            None
        } else {
            let c = p[q];
            if c == '$' {
                Some((PathToken::Root, q + 1))
            } else if c == '.' {
                if q + 1 < p.len() && (p[q + 1] == '*' || p[q + 1] == '.') {
                    Some((PathToken::Wildcard, q + 2))
                } else {
                    let e = scan_key(p, q + 1);
                    Some((PathToken::Key(p.subrange(q + 1, e)), e))
                }
            } else if c == '[' {
                let a = q + 1;
                if a < p.len() && p[a] == '*' {
                    if a + 2 <= p.len() {
                        Some((PathToken::Wildcard, a + 2))
                    } else {
                        Some((PathToken::Wildcard, p.len() as int))
                    }
                } else if a < p.len() && (p[a] == '\'' || p[a] == '"') {
                    let e = scan_until(p, a + 1, p[a]);
                    let e2 = if e < p.len() {
                        e + 1
                    } else {
                        e
                    };
                    let e3 = if e2 < p.len() && p[e2] == ']' {
                        e2 + 1
                    } else {
                        e2
                    };
                    Some((PathToken::Key(p.subrange(a + 1, e)), e3))
                } else {
                    let e = scan_digits(p, a);
                    let e2 = if e < p.len() && p[e] == ']' {
                        e + 1
                    } else {
                        e
                    };
                    Some((PathToken::Index(index_value(p.subrange(a, e))), e2))
                }
            } else if c == '*' {
                Some((PathToken::Wildcard, q + 1))
            } else {
                let e = scan_key(p, q);
                if e == q {
                    Some((PathToken::Stuck, q))
                } else {
                    Some((PathToken::Key(p.subrange(q, e)), e))
                }
            }
        }
    }
}

pub proof fn lemma_scans(p: Seq<char>, pos: int)
    requires
        0 <= pos <= p.len(),
    ensures
        pos <= skip_ws(p, pos) <= p.len(),
        pos <= scan_key(p, pos) <= p.len(),
        pos <= scan_digits(p, pos) <= p.len(),
        forall|q: char| pos <= #[trigger] scan_until(p, pos, q) <= p.len(),
    decreases p.len() - pos,
{
    if pos < p.len() {
        lemma_scans(p, pos + 1);
        assert forall|q: char| pos <= #[trigger] scan_until(p, pos, q) <= p.len() by {
            if p[pos] != q {
                assert(scan_until(p, pos, q) == scan_until(p, pos + 1, q));
            }
        }
    }
}

pub proof fn lemma_next_token_progress(p: Seq<char>, pos: int)
    requires
        0 <= pos <= p.len(),
    ensures
        match next_token(p, pos) {
            Some((t, np)) => t is Stuck || (pos < np <= p.len()),
            None => true,
        },
{
    lemma_scans(p, pos);
    let q = skip_ws(p, pos);
    if q < p.len() {
        lemma_scans(p, q + 1);
        lemma_scans(p, q);
        if q + 2 <= p.len() {
            lemma_scans(p, q + 2);
        }
    }
}

/// What one token selects below one value.
pub open spec fn token_children(v: JsonValue, t: PathToken) -> Seq<JsonValue> {
    match t {
        PathToken::Key(k) => match v.member(k) {
            Some(x) => seq![x],
            None => Seq::empty(),
        },
        PathToken::Index(i) => match v {
            JsonValue::Array(items) => if i < items@.len() {
                seq![items@[i as int]]
            } else {
                Seq::empty()
            },
            _ => Seq::empty(),
        },
        PathToken::Wildcard => match v {
            JsonValue::Object(m) => m@.map_values(|e: (String, JsonValue)| e.1),
            JsonValue::Array(items) => items@,
            _ => Seq::empty(),
        },
        _ => Seq::empty(),
    }
}

/// What one token selects below each of the current values, in order.
pub open spec fn step_values(cur: Seq<JsonValue>, t: PathToken) -> Seq<JsonValue>
    decreases cur.len(),
{
    if cur.len() == 0 {
        Seq::empty()
    } else {
        step_values(cur.drop_last(), t) + token_children(cur.last(), t)
    }
}

/// Path evaluation from position `pos`. A `$` after the first token ends
/// evaluation; evaluation also ends as soon as nothing is selected; after a
/// stuck scanner nothing remains selected.
pub open spec fn eval_from(p: Seq<char>, pos: int, first: bool, cur: Seq<JsonValue>) -> Seq<JsonValue>
    decreases p.len() - pos,
{
    if pos < 0 || pos > p.len() {
        cur
    } else {
        match next_token(p, pos) {
            None => cur,
            Some((t, np)) => {
                proof {
                    lemma_next_token_progress(p, pos);
                }
                match t {
                    PathToken::Stuck => Seq::empty(),
                    PathToken::Root => if first {
                        eval_from(p, np, false, cur)
                    } else {
                        cur
                    },
                    _ => {
                        let nx = step_values(cur, t);
                        if nx.len() == 0 {
                            nx
                        } else {
                            eval_from(p, np, false, nx)
                        }
                    },
                }
            },
        }
    }
}

/// The values a path selects in a document.
pub open spec fn select(root: JsonValue, path: Seq<char>) -> Seq<JsonValue> {
    eval_from(path, 0, true, seq![root])
}

/// The text of a selected value: strings as they are, numbers as written by
/// `serde_json`, `true` / `false` / `null`, and compact JSON for arrays and
/// objects.
pub open spec fn value_text(v: JsonValue) -> Seq<char> {
    match v {
        JsonValue::Null => "null"@,
        JsonValue::Bool(b) => if b {
            "true"@
        } else {
            "false"@
        },
        JsonValue::Number(t) => t@,
        JsonValue::String(s) => s@,
        JsonValue::Array(_) => crate::json::json_text(v@),
        JsonValue::Object(_) => crate::json::json_text(v@),
    }
}

/// The result of evaluating a path.
#[derive(Debug, Clone)]
pub struct JsonPathResult {
    pub found: bool,
    pub values: Vec<String>,
    pub first: Option<String>,
}

/// The texts of a list of values.
pub open spec fn value_texts(v: Seq<JsonValue>) -> Seq<Seq<char>> {
    v.map_values(|x: JsonValue| value_text(x))
}

// ----- exec -----

enum Token {
    Root,
    Key(Vec<char>),
    Index(usize),
    Wildcard,
    Stuck,
}

impl Token {
    spec fn view(self) -> PathToken {
        match self {
            Token::Root => PathToken::Root,
            Token::Key(k) => PathToken::Key(k@),
            Token::Index(i) => PathToken::Index(i as nat),
            Token::Wildcard => PathToken::Wildcard,
            Token::Stuck => PathToken::Stuck,
        }
    }
}

fn is_ascii_ws_exec(c: char) -> (b: bool)
    ensures
        b == is_ascii_ws(c),
{
    c == ' ' || c == '\t' || c == '\n' || c == '\x0C' || c == '\r'
}

fn is_key_char_exec(c: char) -> (b: bool)
    ensures
        b == is_key_char(c),
{
    ('a' <= c && c <= 'z') || ('A' <= c && c <= 'Z') || ('0' <= c && c <= '9') || c == '_' || c
        == '-'
}

fn skip_ws_exec(p: &Vec<char>, pos: usize) -> (r: usize)
    requires
        pos <= p.len(),
    ensures
        r == skip_ws(p@, pos as int),
{
    let mut k = pos;
    while k < p.len() && is_ascii_ws_exec(p[k])
        invariant
            pos <= k <= p.len(),
            skip_ws(p@, pos as int) == skip_ws(p@, k as int),
        decreases p.len() - k,
    {
        k += 1;
    }
    k
}

fn scan_key_exec(p: &Vec<char>, pos: usize) -> (r: usize)
    requires
        pos <= p.len(),
    ensures
        r == scan_key(p@, pos as int),
{
    let mut k = pos;
    while k < p.len() && is_key_char_exec(p[k])
        invariant
            pos <= k <= p.len(),
            scan_key(p@, pos as int) == scan_key(p@, k as int),
        decreases p.len() - k,
    {
        k += 1;
    }
    k
}

fn scan_until_exec(p: &Vec<char>, pos: usize, q: char) -> (r: usize)
    requires
        pos <= p.len(),
    ensures
        r == scan_until(p@, pos as int, q),
{
    let mut k = pos;
    while k < p.len() && p[k] != q
        invariant
            pos <= k <= p.len(),
            scan_until(p@, pos as int, q) == scan_until(p@, k as int, q),
        decreases p.len() - k,
    {
        k += 1;
    }
    k
}

fn scan_digits_exec(p: &Vec<char>, pos: usize) -> (r: usize)
    requires
        pos <= p.len(),
    ensures
        r == scan_digits(p@, pos as int),
{
    let mut k = pos;
    while k < p.len() && '0' <= p[k] && p[k] <= '9'
        invariant
            pos <= k <= p.len(),
            scan_digits(p@, pos as int) == scan_digits(p@, k as int),
        decreases p.len() - k,
    {
        k += 1;
    }
    k
}

proof fn lemma_digit_run(p: Seq<char>, a: int, e: int)
    requires
        0 <= a <= e <= p.len(),
        e == scan_digits(p, a),
    ensures
        forall|k: int| a <= k < e ==> '0' <= #[trigger] p[k] <= '9',
    decreases e - a,
{
    if a < e {
        lemma_digit_run(p, a + 1, e);
    }
}

/// `usize` parsing of `p[a..e]`, a run of digits; `0` when it fails.
fn parse_index(p: &Vec<char>, a: usize, e: usize) -> (r: usize)
    requires
        a <= e <= p.len(),
        forall|k: int| a <= k < e ==> '0' <= #[trigger] p@[k] <= '9',
    ensures
        r as nat == index_value(p@.subrange(a as int, e as int)),
{
    if a == e {
        return 0;
    }
    let mut v: usize = 0;
    let mut k = a;
    while k < e
        invariant
            a <= k <= e <= p.len(),
            forall|m: int| a <= m < e ==> '0' <= #[trigger] p@[m] <= '9',
            v as nat == digits_value(p@.subrange(a as int, k as int)),
        decreases e - k,
    {
        proof {
            assert(p@.subrange(a as int, k + 1).drop_last() =~= p@.subrange(a as int, k as int));
        }
        let d = (p[k] as u32 - '0' as u32) as usize;
        if v > (usize::MAX - d) / 10 {
            proof {
                lemma_digits_value_grows(p@.subrange(a as int, e as int), (k + 1 - a) as int);
                assert(p@.subrange(a as int, e as int).take((k + 1 - a) as int) =~= p@.subrange(
                    a as int,
                    k + 1,
                ));
                assert(v * 10 + d > usize::MAX) by (nonlinear_arith)
                    requires
                        v > (usize::MAX - d) / 10,
                        d <= 9,
                ;
            }
            return 0;
        }
        v = v * 10 + d;
        k += 1;
    }
    v
}

proof fn lemma_digits_value_grows(d: Seq<char>, n: int)
    requires
        0 <= n <= d.len(),
        forall|k: int| 0 <= k < d.len() ==> '0' <= #[trigger] d[k] <= '9',
    ensures
        digits_value(d.take(n)) <= digits_value(d),
    decreases d.len() - n,
{
    if n < d.len() {
        lemma_digits_value_grows(d, n + 1);
        assert(d.take(n + 1).drop_last() =~= d.take(n));
    } else {
        assert(d.take(n) =~= d);
    }
}

fn next_token_exec(p: &Vec<char>, pos: usize) -> (r: Option<(Token, usize)>)
    requires
        pos <= p.len(),
    ensures
        match r {
            Some((t, np)) => next_token(p@, pos as int) == Some((t.view(), np as int)),
            None => next_token(p@, pos as int).is_none(),
        },
{
    let q = skip_ws_exec(p, pos);
    proof {
        lemma_scans(p@, pos as int);
    }
    if q >= p.len() {
        return None;
    }
    let c = p[q];
    if c == '$' {
        Some((Token::Root, q + 1))
    } else if c == '.' {
        if q + 1 < p.len() && (p[q + 1] == '*' || p[q + 1] == '.') {
            Some((Token::Wildcard, q + 2))
        } else {
            let e = scan_key_exec(p, q + 1);
            proof {
                lemma_scans(p@, q + 1);
            }
            let k = crate::text::copy_range(p, q + 1, e);
            Some((Token::Key(k), e))
        }
    } else if c == '[' {
        let a = q + 1;
        if a < p.len() && p[a] == '*' {
            if a + 1 < p.len() {
                Some((Token::Wildcard, a + 2))
            } else {
                Some((Token::Wildcard, p.len()))
            }
        } else if a < p.len() && (p[a] == '\'' || p[a] == '"') {
            let e = scan_until_exec(p, a + 1, p[a]);
            proof {
                lemma_scans(p@, a + 1);
                assert(a + 1 <= scan_until(p@, a + 1, p@[a as int]) <= p@.len());
            }
            let e2 = if e < p.len() {
                e + 1
            } else {
                e
            };
            let e3 = if e2 < p.len() && p[e2] == ']' {
                e2 + 1
            } else {
                e2
            };
            let k = crate::text::copy_range(p, a + 1, e);
            Some((Token::Key(k), e3))
        } else {
            let e = scan_digits_exec(p, a);
            proof {
                lemma_scans(p@, a as int);
                lemma_digit_run(p@, a as int, e as int);
            }
            let idx = parse_index(p, a, e);
            let e2 = if e < p.len() && p[e] == ']' {
                e + 1
            } else {
                e
            };
            Some((Token::Index(idx), e2))
        }
    } else if c == '*' {
        Some((Token::Wildcard, q + 1))
    } else {
        let e = scan_key_exec(p, q);
        proof {
            lemma_scans(p@, q as int);
        }
        if e == q {
            Some((Token::Stuck, q))
        } else {
            let k = crate::text::copy_range(p, q, e);
            Some((Token::Key(k), e))
        }
    }
}

/// The views of a list of value references.
pub open spec fn unref(v: Seq<&JsonValue>) -> Seq<JsonValue> {
    v.map_values(|r: &JsonValue| *r)
}

proof fn lemma_step_values_push(cur: Seq<JsonValue>, v: JsonValue, t: PathToken)
    ensures
        step_values(cur.push(v), t) == step_values(cur, t) + token_children(v, t),
{
    assert(cur.push(v).drop_last() =~= cur);
}

/// Appends what `t` selects below `v` to `out`.
fn push_children<'a>(v: &'a JsonValue, t: &Token, out: &mut Vec<&'a JsonValue>)
    ensures
        unref(final(out)@) == unref(old(out)@) + token_children(*v, t.view()),
{
    let ghost before = unref(out@);
    match t {
        Token::Key(k) => {
            match v.get_member(k) {
                Some(x) => {
                    out.push(x);
                    assert(unref(out@) =~= before + seq![*x]);
                },
                None => {
                    assert(unref(out@) =~= before + Seq::<JsonValue>::empty());
                },
            }
        },
        Token::Index(i) => {
            match v {
                JsonValue::Array(items) => {
                    if *i < items.len() {
                        out.push(&items[*i]);
                        assert(unref(out@) =~= before + seq![items@[*i as int]]);
                    } else {
                        assert(unref(out@) =~= before + Seq::<JsonValue>::empty());
                    }
                },
                _ => {
                    assert(unref(out@) =~= before + Seq::<JsonValue>::empty());
                },
            }
        },
        Token::Wildcard => {
            match v {
                JsonValue::Object(m) => {
                    let mut k: usize = 0;
                    while k < m.len()
                        invariant
                            k <= m.len(),
                            unref(out@) == before + m@.map_values(|e: (String, JsonValue)| e.1).take(
                                k as int,
                            ),
                        decreases m.len() - k,
                    {
                        let ghost prev = unref(out@);
                        out.push(&m[k].1);
                        proof {
                            let vals = m@.map_values(|e: (String, JsonValue)| e.1);
                            assert(unref(out@) =~= prev.push(m@[k as int].1));
                            assert(vals[k as int] == m@[k as int].1);
                            assert(vals.take(k + 1) =~= vals.take(k as int).push(vals[k as int]));
                            assert(unref(out@) =~= before + vals.take(k + 1));
                        }
                        k += 1;
                    }
                    assert(m@.map_values(|e: (String, JsonValue)| e.1).take(m.len() as int)
                        =~= m@.map_values(|e: (String, JsonValue)| e.1));
                },
                JsonValue::Array(items) => {
                    let mut k: usize = 0;
                    while k < items.len()
                        invariant
                            k <= items.len(),
                            unref(out@) == before + items@.take(k as int),
                        decreases items.len() - k,
                    {
                        let ghost prev = unref(out@);
                        out.push(&items[k]);
                        proof {
                            assert(unref(out@) =~= prev.push(items@[k as int]));
                            assert(items@.take(k + 1) =~= items@.take(k as int).push(
                                items@[k as int],
                            ));
                            assert(unref(out@) =~= before + items@.take(k + 1));
                        }
                        k += 1;
                    }
                    assert(items@.take(items.len() as int) =~= items@);
                },
                _ => {
                    assert(unref(out@) =~= before + Seq::<JsonValue>::empty());
                },
            }
        },
        _ => {
            assert(unref(out@) =~= before + Seq::<JsonValue>::empty());
        },
    }
}

/// What `t` selects below each value of `cur`, in order.
fn step_exec<'a>(cur: &Vec<&'a JsonValue>, t: &Token) -> (r: Vec<&'a JsonValue>)
    ensures
        unref(r@) == step_values(unref(cur@), t.view()),
{
    let mut out: Vec<&JsonValue> = Vec::new();
    let mut i: usize = 0;
    while i < cur.len()
        invariant
            i <= cur.len(),
            unref(out@) == step_values(unref(cur@).take(i as int), t.view()),
        decreases cur.len() - i,
    {
        proof {
            assert(unref(cur@).take(i + 1) =~= unref(cur@).take(i as int).push(*cur@[i as int]));
            lemma_step_values_push(unref(cur@).take(i as int), *cur@[i as int], t.view());
        }
        push_children(cur[i], t, &mut out);
        i += 1;
    }
    assert(unref(cur@).take(cur.len() as int) =~= unref(cur@));
    out
}

/// The text of a value (see `value_text`).
pub fn value_to_string(v: &JsonValue) -> (r: String)
    ensures
        r@ == value_text(*v),
{
    match v {
        JsonValue::Null => crate::domain::owned("null"),
        JsonValue::Bool(b) => if *b {
            crate::domain::owned("true")
        } else {
            crate::domain::owned("false")
        },
        JsonValue::Number(t) => t.clone(),
        JsonValue::String(s) => s.clone(),
        JsonValue::Array(_) => crate::json::compact_json(v),
        JsonValue::Object(_) => crate::json::compact_json(v),
    }
}

/// Evaluates a path on a document: the texts of the selected values (see
/// `select`, `value_text`), whether there are any, and the first.
pub fn json_path(root: &JsonValue, path: &str) -> (r: JsonPathResult)
    ensures
        string_views(r.values@) == value_texts(select(*root, path@)),
        r.found == (r.values@.len() > 0),
        r.first == (if r.values@.len() > 0 {
            Some(r.values@[0])
        } else {
            None::<String>
        }),
{
    let p = chars_of(path);
    let mut cur: Vec<&JsonValue> = Vec::new();
    cur.push(root);
    assert(unref(cur@) =~= seq![*root]);
    let mut pos: usize = 0;
    let mut first = true;
    loop
        invariant
            p@ == path@,
            pos <= p.len(),
            select(*root, path@) == eval_from(p@, pos as int, first, unref(cur@)),
        ensures
            select(*root, path@) == unref(cur@),
        decreases p.len() - pos,
    {
        proof {
            lemma_next_token_progress(p@, pos as int);
        }
        match next_token_exec(&p, pos) {
            None => {
                break;
            },
            Some((t, np)) => {
                match t {
                    Token::Stuck => {
                        cur = Vec::new();
                        assert(unref(cur@) =~= Seq::<JsonValue>::empty());
                        break;
                    },
                    Token::Root => {
                        if !first {
                            break;
                        }
                        first = false;
                        pos = np;
                    },
                    _ => {
                        let nx = step_exec(&cur, &t);
                        cur = nx;
                        first = false;
                        if cur.len() == 0 {
                            break;
                        }
                        pos = np;
                    },
                }
            },
        }
    }
    let mut values: Vec<String> = Vec::new();
    let mut i: usize = 0;
    while i < cur.len()
        invariant
            i <= cur.len(),
            values@.len() == i,
            forall|k: int| 0 <= k < i ==> (#[trigger] values@[k])@ == value_text(*cur@[k]),
        decreases cur.len() - i,
    {
        values.push(value_to_string(cur[i]));
        i += 1;
    }
    assert(string_views(values@) =~= value_texts(unref(cur@)));
    let first_value = if values.len() > 0 {
        Some(values[0].clone())
    } else {
        None
    };
    JsonPathResult { found: values.len() > 0, values, first: first_value }
}

proof fn lemma_scan_key_run(p: Seq<char>, pos: int, end: int)
    requires
        0 <= pos <= end <= p.len(),
        forall|i: int| pos <= i < end ==> is_key_char(#[trigger] p[i]),
        end == p.len() || !is_key_char(p[end]),
    ensures
        scan_key(p, pos) == end,
    decreases end - pos,
{
    if pos < end {
        lemma_scan_key_run(p, pos + 1, end);
    }
}

proof fn lemma_single_step(v: JsonValue, t: PathToken)
    ensures
        step_values(seq![v], t) == token_children(v, t),
{
    let one = seq![v];
    assert(one.drop_last() =~= Seq::<JsonValue>::empty());
    assert(one.last() == v);
    assert(step_values(one.drop_last(), t) == Seq::<JsonValue>::empty());
    assert(step_values(one, t) == step_values(one.drop_last(), t) + token_children(v, t));
    assert(Seq::<JsonValue>::empty() + token_children(v, t) =~= token_children(v, t));
}

/// `$.<key>[*]` selects, below the member `key` of the document, every
/// member value of an object in order, or every element of an array; below
/// anything else, or when there is no such member, it selects nothing.
pub proof fn law_wildcard_selects_every_member(root: JsonValue, key: Seq<char>)
    requires
        key.len() > 0,
        forall|i: int| 0 <= i < key.len() ==> is_key_char(#[trigger] key[i]),
    ensures
        ({
            let sel = select(root, "$."@ + key + "[*]"@);
            match root.member(key) {
                Some(JsonValue::Object(m)) => {
                    &&& sel.len() == m@.len()
                    &&& forall|i: int| 0 <= i < m@.len() ==> #[trigger] sel[i] == m@[i].1
                },
                Some(JsonValue::Array(items)) => sel == items@,
                _ => sel.len() == 0,
            }
        }),
{
    reveal_strlit("$.");
    reveal_strlit("[*]");
    let n = key.len() as int;
    let p = "$."@ + key + "[*]"@;
    assert(p.len() == n + 5);
    assert(p[0] == '$');
    assert(p[1] == '.');
    assert forall|i: int| 2 <= i < 2 + n implies is_key_char(#[trigger] p[i]) by {
        assert(p[i] == key[i - 2]);
    }
    assert(p[2 + n] == '[');
    assert(p[3 + n] == '*');
    assert(skip_ws(p, 0) == 0);
    assert(next_token(p, 0) == Some((PathToken::Root, 1int)));
    assert(select(root, p) == eval_from(p, 1, false, seq![root]));
    assert(skip_ws(p, 1) == 1);
    assert(p[2] == key[0]);
    lemma_scan_key_run(p, 2, 2 + n);
    assert(p.subrange(2, 2 + n) =~= key);
    assert(next_token(p, 1) == Some((PathToken::Key(key), 2 + n)));
    lemma_single_step(root, PathToken::Key(key));
    let nx = step_values(seq![root], PathToken::Key(key));
    assert(eval_from(p, 1, false, seq![root]) == (if nx.len() == 0 {
        nx
    } else {
        eval_from(p, 2 + n, false, nx)
    }));
    match root.member(key) {
        Some(x) => {
            assert(nx == seq![x]);
            assert(skip_ws(p, 2 + n) == 2 + n);
            assert(next_token(p, 2 + n) == Some((PathToken::Wildcard, 5 + n)));
            lemma_single_step(x, PathToken::Wildcard);
            let nx2 = token_children(x, PathToken::Wildcard);
            assert(eval_from(p, 2 + n, false, nx) == (if nx2.len() == 0 {
                nx2
            } else {
                eval_from(p, 5 + n, false, nx2)
            }));
            assert(skip_ws(p, 5 + n) == 5 + n);
            assert(next_token(p, 5 + n).is_none());
            assert(eval_from(p, 5 + n, false, nx2) == nx2);
            assert(select(root, p) == nx2);
        },
        None => {
            assert(nx.len() == 0);
        },
    }
}

proof fn lemma_scan_digits_run(p: Seq<char>, pos: int, end: int)
    requires
        0 <= pos <= end <= p.len(),
        forall|i: int| pos <= i < end ==> '0' <= #[trigger] p[i] <= '9',
        end == p.len() || !('0' <= p[end] <= '9'),
    ensures
        scan_digits(p, pos) == end,
    decreases end - pos,
{
    if pos < end {
        lemma_scan_digits_run(p, pos + 1, end);
    }
}

/// `$.<a>.<b>` selects the member `b` of the member `a` of the document,
/// and nothing when either is missing.
pub proof fn law_key_chain_selects_nested_member(root: JsonValue, a: Seq<char>, b: Seq<char>)
    requires
        a.len() > 0,
        b.len() > 0,
        forall|i: int| 0 <= i < a.len() ==> is_key_char(#[trigger] a[i]),
        forall|i: int| 0 <= i < b.len() ==> is_key_char(#[trigger] b[i]),
    ensures
        select(root, "$."@ + a + "."@ + b) == match root.member(a) {
            Some(x) => match x.member(b) {
                Some(y) => seq![y],
                None => Seq::<JsonValue>::empty(),
            },
            None => Seq::<JsonValue>::empty(),
        },
{
    reveal_strlit("$.");
    reveal_strlit(".");
    let n = a.len() as int;
    let m = b.len() as int;
    let p = "$."@ + a + "."@ + b;
    assert(p.len() == n + m + 3);
    assert(p[0] == '$');
    assert(p[1] == '.');
    assert forall|i: int| 2 <= i < 2 + n implies is_key_char(#[trigger] p[i]) by {
        assert(p[i] == a[i - 2]);
    }
    assert(p[2 + n] == '.');
    assert forall|i: int| 3 + n <= i < 3 + n + m implies is_key_char(#[trigger] p[i]) by {
        assert(p[i] == b[i - 3 - n]);
    }
    assert(skip_ws(p, 0) == 0);
    assert(next_token(p, 0) == Some((PathToken::Root, 1int)));
    assert(skip_ws(p, 1) == 1);
    assert(p[2] == a[0]);
    lemma_scan_key_run(p, 2, 2 + n);
    assert(p.subrange(2, 2 + n) =~= a);
    assert(next_token(p, 1) == Some((PathToken::Key(a), 2 + n)));
    lemma_single_step(root, PathToken::Key(a));
    let nx = step_values(seq![root], PathToken::Key(a));
    assert(select(root, p) == eval_from(p, 1, false, seq![root]));
    assert(select(root, p) == (if nx.len() == 0 {
        nx
    } else {
        eval_from(p, 2 + n, false, nx)
    }));
    match root.member(a) {
        Some(x) => {
            assert(nx == seq![x]);
            assert(skip_ws(p, 2 + n) == 2 + n);
            assert(p[3 + n] == b[0]);
            lemma_scan_key_run(p, 3 + n, 3 + n + m);
            assert(p.subrange(3 + n, 3 + n + m) =~= b);
            assert(next_token(p, 2 + n) == Some((PathToken::Key(b), 3 + n + m)));
            lemma_single_step(x, PathToken::Key(b));
            let nx2 = token_children(x, PathToken::Key(b));
            assert(eval_from(p, 2 + n, false, nx) == (if nx2.len() == 0 {
                nx2
            } else {
                eval_from(p, 3 + n + m, false, nx2)
            }));
            assert(skip_ws(p, 3 + n + m) == 3 + n + m);
            assert(next_token(p, 3 + n + m).is_none());
            assert(eval_from(p, 3 + n + m, false, nx2) == nx2);
        },
        None => {
            assert(nx.len() == 0);
        },
    }
}

/// `$.<key>[<digits>]` selects the element at that index of the array
/// under `key`, and nothing when the index is past its end or the member
/// is not an array.
pub proof fn law_index_selects_one_element(root: JsonValue, key: Seq<char>, digits: Seq<char>)
    requires
        key.len() > 0,
        forall|i: int| 0 <= i < key.len() ==> is_key_char(#[trigger] key[i]),
        digits.len() > 0,
        forall|i: int| 0 <= i < digits.len() ==> '0' <= #[trigger] digits[i] <= '9',
        digits_value(digits) <= usize::MAX,
    ensures
        select(root, "$."@ + key + "["@ + digits + "]"@) == match root.member(key) {
            Some(JsonValue::Array(items)) => if digits_value(digits) < items@.len() {
                seq![items@[digits_value(digits) as int]]
            } else {
                Seq::<JsonValue>::empty()
            },
            _ => Seq::<JsonValue>::empty(),
        },
{
    reveal_strlit("$.");
    reveal_strlit("[");
    reveal_strlit("]");
    let n = key.len() as int;
    let m = digits.len() as int;
    let p = "$."@ + key + "["@ + digits + "]"@;
    assert(p.len() == n + m + 4);
    assert(p[0] == '$');
    assert(p[1] == '.');
    assert forall|i: int| 2 <= i < 2 + n implies is_key_char(#[trigger] p[i]) by {
        assert(p[i] == key[i - 2]);
    }
    assert(p[2 + n] == '[');
    assert forall|i: int| 3 + n <= i < 3 + n + m implies '0' <= #[trigger] p[i] <= '9' by {
        assert(p[i] == digits[i - 3 - n]);
    }
    assert(p[3 + n + m] == ']');
    assert(skip_ws(p, 0) == 0);
    assert(next_token(p, 0) == Some((PathToken::Root, 1int)));
    assert(skip_ws(p, 1) == 1);
    assert(p[2] == key[0]);
    lemma_scan_key_run(p, 2, 2 + n);
    assert(p.subrange(2, 2 + n) =~= key);
    assert(next_token(p, 1) == Some((PathToken::Key(key), 2 + n)));
    lemma_single_step(root, PathToken::Key(key));
    let nx = step_values(seq![root], PathToken::Key(key));
    assert(select(root, p) == eval_from(p, 1, false, seq![root]));
    assert(select(root, p) == (if nx.len() == 0 {
        nx
    } else {
        eval_from(p, 2 + n, false, nx)
    }));
    match root.member(key) {
        Some(x) => {
            assert(nx == seq![x]);
            assert(skip_ws(p, 2 + n) == 2 + n);
            assert(p[3 + n] == digits[0]);
            lemma_scan_digits_run(p, 3 + n, 3 + n + m);
            assert(p.subrange(3 + n, 3 + n + m) =~= digits);
            let t = PathToken::Index(digits_value(digits));
            assert(next_token(p, 2 + n) == Some((t, 4 + n + m)));
            lemma_single_step(x, t);
            let nx2 = token_children(x, t);
            assert(eval_from(p, 2 + n, false, nx) == (if nx2.len() == 0 {
                nx2
            } else {
                eval_from(p, 4 + n + m, false, nx2)
            }));
            assert(skip_ws(p, 4 + n + m) == 4 + n + m);
            assert(next_token(p, 4 + n + m).is_none());
            assert(eval_from(p, 4 + n + m, false, nx2) == nx2);
        },
        None => {
            assert(nx.len() == 0);
        },
    }
}

} // verus!
