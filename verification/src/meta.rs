//! The frontmatter: locating the blank-line boundary that separates the
//! metadata block from the body, and decoding the metadata block into the
//! ordered tuple `(title, date, tags, language)`.
//!
//! The metadata block is written as a parenthesised tuple of double-quoted
//! strings, the tags as a bracketed list:
//! `("A title", "2023-01-01", ["tag", "other"], "en")`.
//! Whitespace may stand between tokens; inside a string `\"` and `\\` stand
//! for a quote and a backslash.
use crate::text::is_ws;
use crate::text::string_from_chars;
use vstd::prelude::*;

verus! {

/// The decoded metadata tuple.
pub struct Meta {
    pub title: String,
    pub date: String,
    pub tags: Vec<String>,
    pub lang: String,
}

/// The mathematical form of a `Meta`.
pub struct MetaV {
    pub title: Seq<char>,
    pub date: Seq<char>,
    pub tags: Seq<Seq<char>>,
    pub lang: Seq<char>,
}

impl View for Meta {
    type V = MetaV;

    open spec fn view(&self) -> MetaV {
        MetaV {
            title: self.title@,
            date: self.date@,
            tags: strs_view(self.tags@),
            lang: self.lang@,
        }
    }
}

/// The mathematical form of a sequence of strings.
pub open spec fn strs_view(v: Seq<String>) -> Seq<Seq<char>> {
    v.map_values(|t: String| t@)
}

pub proof fn lemma_strs_view_push(a: Seq<String>, x: String)
    ensures
        strs_view(a.push(x)) == strs_view(a).push(x@),
{
    assert forall|k: int| 0 <= k < strs_view(a.push(x)).len() implies strs_view(a.push(x))[k]
        == strs_view(a).push(x@)[k] by {
        if k < a.len() {
            assert(a.push(x)[k] == a[k]);
        } else {
            assert(a.push(x)[k] == x);
        }
    }
    assert(strs_view(a.push(x)) =~= strs_view(a).push(x@));
}

/// The position of the first blank line: the least `i` with a newline at `i`
/// and at `i + 1`, searched from position `i` on.
pub open spec fn find_blank_from(s: Seq<char>, i: int) -> Option<int>
    decreases s.len() - i,
{
    if i < 0 || i + 1 >= s.len() {
        None
    } else if s[i] == '\n' && s[i + 1] == '\n' {
        Some(i)
    } else {
        find_blank_from(s, i + 1)
    }
}

/// A found blank-line boundary lies at least two characters before the end.
pub proof fn lemma_find_blank_bounds(s: Seq<char>, i: int)
    requires
        0 <= i,
        find_blank_from(s, i) is Some,
    ensures
        i <= find_blank_from(s, i)->Some_0,
        find_blank_from(s, i)->Some_0 + 1 < s.len(),
    decreases s.len() - i,
{
    if i + 1 < s.len() && !(s[i] == '\n' && s[i + 1] == '\n') {
        lemma_find_blank_bounds(s, i + 1);
    }
}

/// Finds the first blank-line boundary, as `find_blank_from` describes.
pub fn find_blank(v: &Vec<char>) -> (r: Option<usize>)
    ensures
        match r {
            Some(i) => find_blank_from(v@, 0) == Some(i as int),
            None => find_blank_from(v@, 0) is None,
        },
{
    if v.len() < 2 {
        return None;
    }
    let mut i: usize = 0;
    while i < v.len() - 1
        invariant
            v@.len() >= 2,
            0 <= i <= v@.len() - 1,
            find_blank_from(v@, 0) == find_blank_from(v@, i as int),
        decreases v@.len() - i,
    {
        if v[i] == '\n' && v[i + 1] == '\n' {
            return Some(i);
        }
        i = i + 1;
    }
    None
}

/// The first position at or after `i` holding no whitespace.
pub open spec fn skip_ws(s: Seq<char>, i: int) -> int
    decreases s.len() - i,
{
    if 0 <= i < s.len() && is_ws(s[i]) {
        skip_ws(s, i + 1)
    } else {
        i
    }
}

proof fn lemma_skip_ws_bounds(s: Seq<char>, i: int)
    requires
        0 <= i <= s.len(),
    ensures
        i <= skip_ws(s, i) <= s.len(),
    decreases s.len() - i,
{
    if i < s.len() && is_ws(s[i]) {
        lemma_skip_ws_bounds(s, i + 1);
    }
}

/// Advances past whitespace, as `skip_ws` describes.
fn skip_ws_exec(v: &Vec<char>, i: usize) -> (r: usize)
    requires
        i <= v@.len(),
    ensures
        r == skip_ws(v@, i as int),
        i <= r <= v@.len(),
{
    let mut j: usize = i;
    while j < v.len() && crate::text::is_whitespace_char(v[j])
        invariant
            i <= j <= v@.len(),
            skip_ws(v@, i as int) == skip_ws(v@, j as int),
        decreases v@.len() - j,
    {
        j = j + 1;
    }
    j
}

/// The content of a quoted string from position `i` (just after the opening
/// quote) to its closing quote, with `\"` and `\\` unescaped; `None` when the
/// string is unterminated or an escape is unknown. Yields the content and the
/// position after the closing quote.
pub open spec fn string_body(s: Seq<char>, i: int) -> Option<(Seq<char>, int)>
    decreases s.len() - i,
{
    if i < 0 || i >= s.len() {
        None
    } else if s[i] == '"' {
        Some((Seq::empty(), i + 1))
    } else if s[i] == '\\' {
        if i + 1 < s.len() && (s[i + 1] == '"' || s[i + 1] == '\\') {
            match string_body(s, i + 2) {
                Some(p) => Some((seq![s[i + 1]] + p.0, p.1)),
                None => None,
            }
        } else {
            None
        }
    } else {
        match string_body(s, i + 1) {
            Some(p) => Some((seq![s[i]] + p.0, p.1)),
            None => None,
        }
    }
}

proof fn lemma_string_body_bounds(s: Seq<char>, i: int)
    requires
        0 <= i,
        string_body(s, i) is Some,
    ensures
        i < string_body(s, i)->Some_0.1 <= s.len(),
    decreases s.len() - i,
{
    if i < s.len() && s[i] == '"' {
    } else if i < s.len() && s[i] == '\\' {
        lemma_string_body_bounds(s, i + 2);
    } else if i < s.len() {
        lemma_string_body_bounds(s, i + 1);
    }
}

/// Reads a string body, as `string_body` describes.
fn string_body_exec(v: &Vec<char>, i: usize) -> (r: Option<(Vec<char>, usize)>)
    ensures
        match r {
            Some(p) => string_body(v@, i as int) == Some((p.0@, p.1 as int)),
            None => string_body(v@, i as int) is None,
        },
    decreases v@.len() - i,
{
    if i >= v.len() {
        return None;
    }
    let c = v[i];
    if c == '"' {
        return Some((Vec::new(), i + 1));
    }
    if c == '\\' {
        if i + 1 < v.len() && (v[i + 1] == '"' || v[i + 1] == '\\') {
            match string_body_exec(v, i + 2) {
                Some(p) => {
                    let (mut tail, j) = p;
                    let mut out: Vec<char> = Vec::new();
                    out.push(v[i + 1]);
                    let ghost t0 = tail@;
                    out.append(&mut tail);
                    proof {
                        assert(out@ =~= seq![v@[i + 1]] + t0);
                    }
                    return Some((out, j));
                },
                None => {
                    return None;
                },
            }
        }
        return None;
    }
    match string_body_exec(v, i + 1) {
        Some(p) => {
            let (mut tail, j) = p;
            let mut out: Vec<char> = Vec::new();
            out.push(c);
            let ghost t0 = tail@;
            out.append(&mut tail);
            proof {
                assert(out@ =~= seq![v@[i as int]] + t0);
            }
            Some((out, j))
        },
        None => None,
    }
}

/// A quoted string at position `i`: an opening quote, then its body.
pub open spec fn quoted(s: Seq<char>, i: int) -> Option<(Seq<char>, int)> {
    if 0 <= i < s.len() && s[i] == '"' {
        string_body(s, i + 1)
    } else {
        None
    }
}

proof fn lemma_quoted_bounds(s: Seq<char>, i: int)
    requires
        0 <= i,
        quoted(s, i) is Some,
    ensures
        i + 1 < quoted(s, i)->Some_0.1 <= s.len(),
{
    lemma_string_body_bounds(s, i + 1);
}

/// Reads a quoted string, as `quoted` describes.
fn quoted_exec(v: &Vec<char>, i: usize) -> (r: Option<(String, usize)>)
    ensures
        match r {
            Some(p) => quoted(v@, i as int) == Some((p.0@, p.1 as int)),
            None => quoted(v@, i as int) is None,
        },
{
    if i < v.len() && v[i] == '"' {
        match string_body_exec(v, i + 1) {
            Some(p) => Some((string_from_chars(&p.0), p.1)),
            None => None,
        }
    } else {
        None
    }
}

/// The remaining items of a bracketed list after a first item: repeatedly a
/// comma and a quoted string, until a closing bracket. The accumulator guard
/// against lists longer than the text cannot fire on real input, since every
/// item occupies at least two characters.
pub open spec fn list_rest(s: Seq<char>, i: int, acc: Seq<Seq<char>>) -> Option<
    (Seq<Seq<char>>, int),
>
    decreases s.len() - acc.len(),
{
    if acc.len() >= s.len() {
        None
    } else {
        let j = skip_ws(s, i);
        if !(0 <= j < s.len()) {
            None
        } else if s[j] == ']' {
            Some((acc, j + 1))
        } else if s[j] == ',' {
            match quoted(s, skip_ws(s, j + 1)) {
                Some(p) => list_rest(s, p.1, acc.push(p.0)),
                None => None,
            }
        } else {
            None
        }
    }
}

/// A bracketed list of quoted strings at position `i`.
pub open spec fn bracketed(s: Seq<char>, i: int) -> Option<(Seq<Seq<char>>, int)> {
    if !(0 <= i < s.len() && s[i] == '[') {
        None
    } else {
        let j = skip_ws(s, i + 1);
        if 0 <= j < s.len() && s[j] == ']' {
            Some((Seq::empty(), j + 1))
        } else {
            match quoted(s, j) {
                Some(p) => list_rest(s, p.1, seq![p.0]),
                None => None,
            }
        }
    }
}

/// Reads the rest of a list, as `list_rest` describes.
fn list_rest_exec(v: &Vec<char>, i: usize, acc: Vec<String>) -> (r: Option<(Vec<String>, usize)>)
    requires
        i <= v@.len(),
    ensures
        match r {
            Some(p) => list_rest(v@, i as int, strs_view(acc@)) == Some(
                (strs_view(p.0@), p.1 as int),
            ),
            None => list_rest(v@, i as int, strs_view(acc@)) is None,
        },
    decreases v@.len() - acc@.len(),
{
    if acc.len() >= v.len() {
        return None;
    }
    let j = skip_ws_exec(v, i);
    if j >= v.len() {
        return None;
    }
    if v[j] == ']' {
        return Some((acc, j + 1));
    }
    if v[j] == ',' {
        let k = skip_ws_exec(v, j + 1);
        match quoted_exec(v, k) {
            Some(p) => {
                proof {
                    lemma_quoted_bounds(v@, k as int);
                }
                let mut acc2 = acc;
                let ghost a0 = acc2@;
                acc2.push(p.0);
                proof {
                    lemma_strs_view_push(a0, p.0);
                }
                return list_rest_exec(v, p.1, acc2);
            },
            None => {
                return None;
            },
        }
    }
    None
}

/// Reads a bracketed list, as `bracketed` describes.
fn bracketed_exec(v: &Vec<char>, i: usize) -> (r: Option<(Vec<String>, usize)>)
    requires
        i <= v@.len(),
    ensures
        match r {
            Some(p) => bracketed(v@, i as int) == Some((strs_view(p.0@), p.1 as int)),
            None => bracketed(v@, i as int) is None,
        },
{
    if !(i < v.len() && v[i] == '[') {
        return None;
    }
    let j = skip_ws_exec(v, i + 1);
    if j < v.len() && v[j] == ']' {
        let empty: Vec<String> = Vec::new();
        proof {
            assert(strs_view(empty@) =~= Seq::<Seq<char>>::empty());
        }
        return Some((empty, j + 1));
    }
    match quoted_exec(v, j) {
        Some(p) => {
            proof {
                lemma_quoted_bounds(v@, j as int);
            }
            let mut first: Vec<String> = Vec::new();
            let ghost t0 = p.0@;
            first.push(p.0);
            proof {
                assert(strs_view(first@) =~= seq![t0]);
            }
            list_rest_exec(v, p.1, first)
        },
        None => None,
    }
}

/// The decoded metadata tuple of a metadata block: a parenthesised tuple of
/// title, date, tag list and language, with nothing but whitespace around it.
pub open spec fn meta_of(s: Seq<char>) -> Option<MetaV> {
    let i0 = skip_ws(s, 0);
    if !(0 <= i0 < s.len() && s[i0] == '(') {
        None
    } else {
        match quoted(s, skip_ws(s, i0 + 1)) {
            None => None,
            Some(pt) => {
                let a = skip_ws(s, pt.1);
                if !(0 <= a < s.len() && s[a] == ',') {
                    None
                } else {
                    match quoted(s, skip_ws(s, a + 1)) {
                        None => None,
                        Some(pd) => {
                            let b = skip_ws(s, pd.1);
                            if !(0 <= b < s.len() && s[b] == ',') {
                                None
                            } else {
                                match bracketed(s, skip_ws(s, b + 1)) {
                                    None => None,
                                    Some(pg) => {
                                        let c = skip_ws(s, pg.1);
                                        if !(0 <= c < s.len() && s[c] == ',') {
                                            None
                                        } else {
                                            match quoted(s, skip_ws(s, c + 1)) {
                                                None => None,
                                                Some(pl) => {
                                                    let d = skip_ws(s, pl.1);
                                                    if !(0 <= d < s.len() && s[d] == ')') {
                                                        None
                                                    } else if skip_ws(s, d + 1) != s.len() {
                                                        None
                                                    } else {
                                                        Some(
                                                            MetaV {
                                                                title: pt.0,
                                                                date: pd.0,
                                                                tags: pg.0,
                                                                lang: pl.0,
                                                            },
                                                        )
                                                    }
                                                },
                                            }
                                        }
                                    },
                                }
                            }
                        },
                    }
                }
            },
        }
    }
}

proof fn lemma_list_rest_bounds(s: Seq<char>, i: int, acc: Seq<Seq<char>>)
    requires
        0 <= i <= s.len(),
        list_rest(s, i, acc) is Some,
    ensures
        list_rest(s, i, acc)->Some_0.1 <= s.len(),
    decreases s.len() - acc.len(),
{
    if acc.len() < s.len() {
        let j = skip_ws(s, i);
        lemma_skip_ws_bounds(s, i);
        if 0 <= j < s.len() && s[j] != ']' && s[j] == ',' {
            lemma_skip_ws_bounds(s, j + 1);
            if quoted(s, skip_ws(s, j + 1)) is Some {
                lemma_quoted_bounds(s, skip_ws(s, j + 1));
                lemma_list_rest_bounds(
                    s,
                    quoted(s, skip_ws(s, j + 1))->Some_0.1,
                    acc.push(quoted(s, skip_ws(s, j + 1))->Some_0.0),
                );
            }
        }
    }
}

proof fn lemma_bracketed_bounds(s: Seq<char>, i: int)
    requires
        0 <= i,
        bracketed(s, i) is Some,
    ensures
        bracketed(s, i)->Some_0.1 <= s.len(),
{
    let j = skip_ws(s, i + 1);
    lemma_skip_ws_bounds(s, i + 1);
    if 0 <= j < s.len() && s[j] == ']' {
    } else {
        lemma_quoted_bounds(s, j);
        lemma_list_rest_bounds(s, quoted(s, j)->Some_0.1, seq![quoted(s, j)->Some_0.0]);
    }
}

/// Decodes a metadata block, as `meta_of` describes.
pub fn parse_meta(v: &Vec<char>) -> (r: Option<Meta>)
    ensures
        match r {
            Some(m) => meta_of(v@) == Some(m@),
            None => meta_of(v@) is None,
        },
{
    let i0 = skip_ws_exec(v, 0);
    if !(i0 < v.len() && v[i0] == '(') {
        return None;
    }
    let pt = match quoted_exec(v, skip_ws_exec(v, i0 + 1)) {
        Some(p) => p,
        None => {
            return None;
        },
    };
    proof {
        lemma_quoted_bounds(v@, skip_ws(v@, i0 + 1));
    }
    let a = skip_ws_exec(v, pt.1);
    if !(a < v.len() && v[a] == ',') {
        return None;
    }
    let pd = match quoted_exec(v, skip_ws_exec(v, a + 1)) {
        Some(p) => p,
        None => {
            return None;
        },
    };
    proof {
        lemma_quoted_bounds(v@, skip_ws(v@, a + 1));
    }
    let b = skip_ws_exec(v, pd.1);
    if !(b < v.len() && v[b] == ',') {
        return None;
    }
    let pg = match bracketed_exec(v, skip_ws_exec(v, b + 1)) {
        Some(p) => p,
        None => {
            return None;
        },
    };
    proof {
        lemma_bracketed_bounds(v@, skip_ws(v@, b + 1));
    }
    let c = skip_ws_exec(v, pg.1);
    if !(c < v.len() && v[c] == ',') {
        return None;
    }
    let pl = match quoted_exec(v, skip_ws_exec(v, c + 1)) {
        Some(p) => p,
        None => {
            return None;
        },
    };
    proof {
        lemma_quoted_bounds(v@, skip_ws(v@, c + 1));
    }
    let d = skip_ws_exec(v, pl.1);
    if !(d < v.len() && v[d] == ')') {
        return None;
    }
    if skip_ws_exec(v, d + 1) != v.len() {
        return None;
    }
    Some(Meta { title: pt.0, date: pd.0, tags: pg.0, lang: pl.0 })
}

} // verus!
