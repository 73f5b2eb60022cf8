//! JSONC clean-up: removes `//` and `/* */` comments and trailing commas
//! before `}` / `]`, leaving string literals as they are.

use vstd::prelude::*;

use crate::text::{chars_of, is_whitespace, is_ws, string_of};

verus! {

/// Where the scanner is.
#[derive(PartialEq, Eq, Structural)]
pub enum Mode {
    /// Outside strings and comments.
    Normal,
    /// Inside a string literal.
    InString,
    /// Right after a backslash inside a string literal.
    Escape,
    /// Inside a `//` comment (up to its newline).
    LineComment,
    /// Right after `/*`'s `/`: the `*` is still to be skipped.
    BlockOpen,
    /// Inside a `/* */` comment; `prev` is the previous comment character.
    Block { prev: char },
}

/// Scanner state: the output so far, the mode, and the index in the output
/// of the last significant character (the one a trailing comma would be).
pub struct ScanState {
    pub out: Seq<char>,
    pub mode: Mode,
    pub last: Option<int>,
}

/// Before a closing `}` / `]`: if the last significant character is a comma,
/// the output is cut there.
pub open spec fn trim_trailing_comma(out: Seq<char>, last: Option<int>) -> Seq<char> {
    match last {
        Some(idx) => if 0 <= idx < out.len() && out[idx] == ',' {
            out.take(idx)
        } else {
            out
        },
        None => out,
    }
}

/// The first index `j >= from` whose character is not whitespace.
pub open spec fn next_non_ws(s: Seq<char>, from: int) -> int
    decreases s.len() - from,
{
    if from < 0 || from >= s.len() {
        s.len() as int
    } else if is_ws(s[from]) {
        next_non_ws(s, from + 1)
    } else {
        from
    }
}

/// A comma at `i` is dropped when the next non-whitespace character closes
/// an object or array.
pub open spec fn comma_dropped(s: Seq<char>, i: int) -> bool {
    let j = next_non_ws(s, i + 1);
    j < s.len() && (s[j] == '}' || s[j] == ']')
}

/// One scanner step on the character at `i`.
pub open spec fn step(s: Seq<char>, i: int, st: ScanState) -> ScanState {
    let c = s[i];
    match st.mode {
        Mode::InString => if c == '\\' {
            ScanState { out: st.out.push(c), mode: Mode::Escape, last: st.last }
        } else if c == '"' {
            ScanState { out: st.out.push(c), mode: Mode::Normal, last: st.last }
        } else {
            ScanState { out: st.out.push(c), mode: Mode::InString, last: st.last }
        },
        Mode::Escape => ScanState { out: st.out.push(c), mode: Mode::InString, last: st.last },
        Mode::LineComment => if c == '\n' {
            ScanState { out: st.out.push('\n'), mode: Mode::Normal, last: st.last }
        } else {
            st
        },
        Mode::BlockOpen => ScanState { out: st.out, mode: Mode::Block { prev: '\0' }, last: st.last },
        Mode::Block { prev } => if prev == '*' && c == '/' {
            ScanState { out: st.out, mode: Mode::Normal, last: st.last }
        } else if c == '\n' {
            ScanState { out: st.out.push('\n'), mode: Mode::Block { prev: c }, last: st.last }
        } else {
            ScanState { out: st.out, mode: Mode::Block { prev: c }, last: st.last }
        },
        Mode::Normal => if c == '"' {
            ScanState { out: st.out.push(c), mode: Mode::InString, last: Some(st.out.len() as int) }
        } else if c == '/' && i + 1 < s.len() && s[i + 1] == '/' {
            ScanState { out: st.out, mode: Mode::LineComment, last: st.last }
        } else if c == '/' && i + 1 < s.len() && s[i + 1] == '*' {
            ScanState { out: st.out, mode: Mode::BlockOpen, last: st.last }
        } else if c == '}' || c == ']' {
            let o = trim_trailing_comma(st.out, st.last);
            ScanState { out: o.push(c), mode: Mode::Normal, last: Some(o.len() as int) }
        } else if c == ',' {
            if comma_dropped(s, i) {
                st
            } else {
                ScanState { out: st.out.push(c), mode: Mode::Normal, last: Some(st.out.len() as int) }
            }
        } else if is_ws(c) {
            ScanState { out: st.out.push(c), mode: Mode::Normal, last: st.last }
        } else {
            ScanState { out: st.out.push(c), mode: Mode::Normal, last: Some(st.out.len() as int) }
        },
    }
}

/// The state after scanning `s[i..]` from `st`.
pub open spec fn run(s: Seq<char>, i: int, st: ScanState) -> ScanState
    decreases s.len() - i,
{
    if i < 0 || i >= s.len() {
        st
    } else {
        run(s, i + 1, step(s, i, st))
    }
}

/// The output at the end of input: a string cut right after a backslash is
/// closed off with a NUL character.
pub open spec fn finish(st: ScanState) -> Seq<char> {
    if st.mode == Mode::Escape {
        st.out.push('\0')
    } else {
        st.out
    }
}

/// The initial scanner state.
pub open spec fn start() -> ScanState {
    ScanState { out: Seq::empty(), mode: Mode::Normal, last: None }
}

/// The cleaned text.
pub open spec fn strip_jsonc_spec(src: Seq<char>) -> Seq<char> {
    finish(run(src, 0, start()))
}

/// Exec form of `comma_dropped`.
fn comma_dropped_exec(s: &Vec<char>, i: usize) -> (r: bool)
    requires
        i < s.len(),
    ensures
        r == comma_dropped(s@, i as int),
{
    let mut j = i + 1;
    while j < s.len() && is_whitespace(s[j])
        invariant
            i < j <= s.len(),
            next_non_ws(s@, i + 1) == next_non_ws(s@, j as int),
        decreases s.len() - j,
    {
        j += 1;
    }
    j < s.len() && (s[j] == '}' || s[j] == ']')
}

/// Removes `//` and `/* */` comments (keeping their newlines) and trailing
/// commas before `}` / `]`; string literals are copied as they are.
pub fn clean_jsonc(src: &str) -> (r: String)
    ensures
        r@ == strip_jsonc_spec(src@),
{
    let s = chars_of(src);
    let mut out: Vec<char> = Vec::new();
    let mut mode = Mode::Normal;
    let mut last: Option<usize> = None;
    let mut i: usize = 0;
    while i < s.len()
        invariant
            i <= s.len(),
            s@ == src@,
            run(s@, 0, start()) == run(
                s@,
                i as int,
                ScanState {
                    out: out@,
                    mode: mode,
                    last: match last {
                        Some(k) => Some(k as int),
                        None => None,
                    },
                },
            ),
            last matches Some(k) ==> k < out.len(),
        decreases s.len() - i,
    {
        let c = s[i];
        match mode {
            Mode::InString => {
                out.push(c);
                if c == '\\' {
                    mode = Mode::Escape;
                } else if c == '"' {
                    mode = Mode::Normal;
                }
            },
            Mode::Escape => {
                out.push(c);
                mode = Mode::InString;
            },
            Mode::LineComment => {
                if c == '\n' {
                    out.push('\n');
                    mode = Mode::Normal;
                }
            },
            Mode::BlockOpen => {
                mode = Mode::Block { prev: '\0' };
            },
            Mode::Block { prev } => {
                if prev == '*' && c == '/' {
                    mode = Mode::Normal;
                } else {
                    if c == '\n' {
                        out.push('\n');
                    }
                    mode = Mode::Block { prev: c };
                }
            },
            Mode::Normal => {
                if c == '"' {
                    last = Some(out.len());
                    out.push(c);
                    mode = Mode::InString;
                } else if c == '/' && i + 1 < s.len() && s[i + 1] == '/' {
                    mode = Mode::LineComment;
                } else if c == '/' && i + 1 < s.len() && s[i + 1] == '*' {
                    mode = Mode::BlockOpen;
                } else if c == '}' || c == ']' {
                    if let Some(idx) = last {
                        if out[idx] == ',' {
                            out.truncate(idx);
                        }
                    }
                    last = Some(out.len());
                    out.push(c);
                } else if c == ',' {
                    if !comma_dropped_exec(&s, i) {
                        last = Some(out.len());
                        out.push(c);
                    }
                } else if is_whitespace(c) {
                    out.push(c);
                } else {
                    last = Some(out.len());
                    out.push(c);
                }
            },
        }
        i += 1;
    }
    if mode == Mode::Escape {
        out.push('\0');
    }
    string_of(&out)
}

// ----- laws -----

/// Characters that make the scanner do more than copy.
pub open spec fn is_special(c: char) -> bool {
    c == '/' || c == ',' || c == '\\'
}

proof fn lemma_plain_run(s: Seq<char>, i: int, e: int, st: ScanState) -> (st2: ScanState)
    requires
        0 <= i <= e <= s.len(),
        forall|k: int| i <= k < e ==> !is_special(#[trigger] s[k]),
        st.mode == Mode::Normal || st.mode == Mode::InString,
        forall|k: int| 0 <= k < st.out.len() ==> #[trigger] st.out[k] != ',',
    ensures
        run(s, i, st) == run(s, e, st2),
        st2.out == st.out + s.subrange(i, e),
        st2.mode == Mode::Normal || st2.mode == Mode::InString,
        (forall|k: int| i <= k < e ==> #[trigger] s[k] != '"') ==> st2.mode == st.mode,
    decreases e - i,
{
    if i == e {
        assert(st.out + s.subrange(i, e) =~= st.out);
        st
    } else {
        let nx = step(s, i, st);
        let c = s[i];
        if st.mode == Mode::Normal && (c == '}' || c == ']') {
            match st.last {
                Some(idx) => {
                    if 0 <= idx < st.out.len() {
                        assert(st.out[idx] != ',');
                    }
                },
                None => {},
            }
        }
        assert(nx.out == st.out.push(c));
        assert forall|k: int| 0 <= k < nx.out.len() implies #[trigger] nx.out[k] != ',' by {
            if k < st.out.len() {
                assert(nx.out[k] == st.out[k]);
            }
        }
        let st2 = lemma_plain_run(s, i + 1, e, nx);
        assert(st.out.push(c) + s.subrange(i + 1, e) =~= st.out + s.subrange(i, e));
        st2
    }
}

/// `next_non_ws` finds `j` when only whitespace lies between `from` and `j`.
proof fn lemma_next_non_ws_at(s: Seq<char>, from: int, j: int)
    requires
        0 <= from <= j < s.len(),
        !is_ws(s[j]),
        forall|k: int| from <= k < j ==> is_ws(#[trigger] s[k]),
    ensures
        next_non_ws(s, from) == j,
    decreases j - from,
{
    if from < j {
        lemma_next_non_ws_at(s, from + 1, j);
    }
}

/// Where the last significant character stands: in the output, and when it
/// is a comma, only whitespace follows it, outside strings.
pub open spec fn last_ok(st: ScanState) -> bool {
    match st.last {
        Some(idx) => 0 <= idx < st.out.len() && (st.out[idx] == ',' ==> st.mode == Mode::Normal && forall|k: int|
            idx < k < st.out.len() ==> is_ws(#[trigger] st.out[k])),
        None => true,
    }
}

/// The text has no comment and no trailing comma: no `/`, no `\`, and no
/// comma followed (after whitespace) by `}` or `]`.
pub open spec fn plain_json_text(s: Seq<char>) -> bool {
    &&& forall|k: int| 0 <= k < s.len() ==> #[trigger] s[k] != '/' && s[k] != '\\'
    &&& forall|k: int| 0 <= k < s.len() && #[trigger] s[k] == ',' ==> !comma_dropped(s, k)
}

proof fn lemma_clean_run(s: Seq<char>, i: int, st: ScanState)
    requires
        0 <= i <= s.len(),
        plain_json_text(s),
        st.out == s.take(i),
        st.mode == Mode::Normal || st.mode == Mode::InString,
        last_ok(st),
    ensures
        run(s, i, st).out == s,
        run(s, i, st).mode == Mode::Normal || run(s, i, st).mode == Mode::InString,
    decreases s.len() - i,
{
    if i == s.len() {
        assert(s.take(i) =~= s);
    } else {
        let c = s[i];
        assert(c != '/' && c != '\\');
        let nx = step(s, i, st);
        if st.mode == Mode::Normal && (c == '}' || c == ']') {
            match st.last {
                Some(idx) => {
                    if st.out[idx] == ',' {
                        assert(s[idx] == ',');
                        assert forall|k: int| idx + 1 <= k < i implies is_ws(#[trigger] s[k]) by {
                            assert(s[k] == st.out[k]);
                        }
                        lemma_next_non_ws_at(s, idx + 1, i);
                        assert(comma_dropped(s, idx));
                    }
                },
                None => {},
            }
            assert(trim_trailing_comma(st.out, st.last) == st.out);
        }
        assert(nx.out == st.out.push(c));
        assert(nx.out =~= s.take(i + 1));
        assert(last_ok(nx)) by {
            match nx.last {
                Some(idx) => {
                    if idx < st.out.len() {
                        assert(nx.out[idx] == st.out[idx]);
                    }
                    if nx.out[idx] == ',' {
                        assert forall|k: int| idx < k < nx.out.len() implies is_ws(#[trigger] nx.out[k]) by {
                            if k < st.out.len() {
                                assert(nx.out[k] == st.out[k]);
                            }
                        }
                    }
                },
                None => {},
            }
        }
        lemma_clean_run(s, i + 1, nx);
    }
}

/// Text without comments or trailing commas comes back unchanged: no `/`
/// or `\` in it, and no comma followed (after whitespace) by `}` or `]`.
pub proof fn law_plain_json_unchanged(src: Seq<char>)
    requires
        plain_json_text(src),
    ensures
        strip_jsonc_spec(src) == src,
{
    assert(src.take(0) =~= Seq::<char>::empty());
    lemma_clean_run(src, 0, start());
}

proof fn lemma_line_comment_run(s: Seq<char>, i: int, st: ScanState)
    requires
        0 <= i <= s.len(),
        st.mode == Mode::LineComment,
        forall|k: int| i <= k < s.len() ==> #[trigger] s[k] != '\n',
    ensures
        run(s, i, st) == st,
    decreases s.len() - i,
{
    if i < s.len() {
        lemma_line_comment_run(s, i + 1, st);
    }
}

/// A line comment that runs to the end of the text is dropped: `p` followed
/// by `//` and a comment without newline leaves just `p`, when `p` holds no
/// `"`, `/`, `,` or `\`.
pub proof fn law_trailing_line_comment_dropped(p: Seq<char>, comment: Seq<char>)
    requires
        forall|k: int| 0 <= k < p.len() ==> !is_special(#[trigger] p[k]) && p[k] != '"',
        forall|k: int| 0 <= k < comment.len() ==> #[trigger] comment[k] != '\n',
    ensures
        strip_jsonc_spec(p + "//"@ + comment) == p,
{
    reveal_strlit("//");
    let s = p + "//"@ + comment;
    let n = p.len() as int;
    assert forall|k: int| 0 <= k < n implies !is_special(#[trigger] s[k]) && s[k] != '"' by {
        assert(s[k] == p[k]);
    }
    let st2 = lemma_plain_run(s, 0, n, start());
    assert(st2.out =~= p) by {
        assert(s.subrange(0, n) =~= p);
    }
    assert(s[n] == '/' && s[n + 1] == '/');
    let st3 = step(s, n, st2);
    assert(st3.mode == Mode::LineComment);
    assert forall|k: int| n + 1 <= k < s.len() implies #[trigger] s[k] != '\n' by {
        if k > n + 1 {
            assert(s[k] == comment[k - n - 2]);
        }
    }
    lemma_line_comment_run(s, n + 1, st3);
}

} // verus!
