//! Output-relative paths: stripping the input root from a source path and
//! rewriting the extension to `.html`.
use crate::text::take_chars;
use vstd::prelude::*;

verus! {

/// The last position holding `c`, or none.
pub open spec fn rlast(s: Seq<char>, c: char) -> Option<int>
    decreases s.len(),
{
    if s.len() == 0 {
        None
    } else if s.last() == c {
        Some(s.len() - 1)
    } else {
        rlast(s.drop_last(), c)
    }
}

proof fn lemma_rlast_bounds(s: Seq<char>, c: char)
    requires
        rlast(s, c) is Some,
    ensures
        0 <= rlast(s, c)->Some_0 < s.len(),
    decreases s.len(),
{
    if s.len() > 0 && s.last() != c {
        lemma_rlast_bounds(s.drop_last(), c);
    }
}

/// Finds the last position holding `c`, as `rlast` describes.
fn rlast_exec(v: &Vec<char>, c: char) -> (r: Option<usize>)
    ensures
        match r {
            Some(i) => rlast(v@, c) == Some(i as int),
            None => rlast(v@, c) is None,
        },
{
    let mut j: usize = v.len();
    proof {
        assert(v@.take(v@.len() as int) =~= v@);
    }
    while j > 0
        invariant
            0 <= j <= v@.len(),
            rlast(v@, c) == rlast(v@.take(j as int), c),
        decreases j,
    {
        if v[j - 1] == c {
            proof {
                assert(v@.take(j as int).last() == v@[j - 1]);
            }
            return Some(j - 1);
        }
        proof {
            assert(v@.take(j as int).drop_last() =~= v@.take(j - 1));
        }
        j = j - 1;
    }
    proof {
        assert(v@.take(0) =~= Seq::<char>::empty());
    }
    None
}

/// The path relative to the input root: the root (with one following path
/// separator, unless the root is empty or ends in one) stripped from the
/// front; none when the path does not begin so.
pub open spec fn rel_path_of(input: Seq<char>, path: Seq<char>) -> Option<Seq<char>> {
    if input.len() == 0 {
        Some(path)
    } else if path.len() >= input.len() && path.take(input.len() as int) == input {
        if input.last() == '/' {
            Some(path.skip(input.len() as int))
        } else if path.len() > input.len() && path[input.len() as int] == '/' {
            Some(path.skip(input.len() as int + 1))
        } else {
            None
        }
    } else {
        None
    }
}

/// The path with its extension replaced by `html`: everything from the last
/// dot of the last segment on is dropped, unless that dot starts the
/// segment; then `.html` is appended.
pub open spec fn with_html_ext(rel: Seq<char>) -> Seq<char> {
    let seg_start: int = match rlast(rel, '/') {
        Some(k) => k + 1,
        None => 0,
    };
    match rlast(rel, '.') {
        Some(d) => if d > seg_start {
            rel.take(d) + ".html"@
        } else {
            rel + ".html"@
        },
        None => rel + ".html"@,
    }
}

/// A `..` standing as a whole segment at position `i`: two dots bounded by
/// the ends of the path or by separators.
pub open spec fn dotdot_at(s: Seq<char>, i: int) -> bool {
    &&& 0 <= i
    &&& i + 2 <= s.len()
    &&& s[i] == '.'
    &&& s[i + 1] == '.'
    &&& (i == 0 || s[i - 1] == '/')
    &&& (i + 2 == s.len() || s[i + 2] == '/')
}

/// Some segment of the path is `..`.
pub open spec fn has_dotdot_segment(s: Seq<char>) -> bool {
    exists|i: int| dotdot_at(s, i)
}

/// Decides `has_dotdot_segment`.
fn dotdot_exec(v: &Vec<char>) -> (r: bool)
    ensures
        r == has_dotdot_segment(v@),
{
    let n = v.len();
    if n < 2 {
        proof {
            if has_dotdot_segment(v@) {
                let i = choose|i: int| dotdot_at(v@, i);
                assert(false);
            }
        }
        return false;
    }
    let mut i: usize = 0;
    while i < n - 1
        invariant
            0 <= i <= n - 1,
            n == v@.len(),
            n >= 2,
            forall|k: int| 0 <= k < i ==> !dotdot_at(v@, k),
        decreases n - i,
    {
        if v[i] == '.' && v[i + 1] == '.' && (i == 0 || v[i - 1] == '/') && (i + 2 == n || v[i + 2]
            == '/') {
            proof {
                assert(dotdot_at(v@, i as int));
            }
            return true;
        }
        i = i + 1;
    }
    proof {
        if has_dotdot_segment(v@) {
            let k = choose|k: int| dotdot_at(v@, k);
            assert(0 <= k < n - 1);
            assert(false);
        }
    }
    false
}

/// The output-relative path of a source path: the input root stripped, the
/// extension rewritten to `.html`; none when the path is not under the root,
/// nothing of it remains, or what remains begins with a separator or holds a
/// `..` segment — the result is always relative, never a path out of the
/// output root.
pub open spec fn output_path_of(input: Seq<char>, path: Seq<char>) -> Option<Seq<char>> {
    match rel_path_of(input, path) {
        Some(rel) => if rel.len() == 0 || rel.first() == '/' || has_dotdot_segment(rel) {
            None
        } else {
            Some(with_html_ext(rel))
        },
        None => None,
    }
}

/// Appends `.html` to `out`.
fn push_html_ext(out: &mut Vec<char>)
    ensures
        final(out)@ == old(out)@ + ".html"@,
{
    out.push('.');
    out.push('h');
    out.push('t');
    out.push('m');
    out.push('l');
    proof {
        reveal_strlit(".html");
        assert(out@ =~= old(out)@ + ".html"@);
    }
}

/// Rewrites the extension, as `with_html_ext` describes.
fn html_ext_exec(rel: Vec<char>) -> (r: Vec<char>)
    ensures
        r@ == with_html_ext(rel@),
{
    let rlen = rel.len();
    let slash = rlast_exec(&rel, '/');
    proof {
        if rlast(rel@, '/') is Some {
            lemma_rlast_bounds(rel@, '/');
        }
    }
    let seg_start: usize = match slash {
        Some(k) => k + 1,
        None => 0,
    };
    match rlast_exec(&rel, '.') {
        Some(d) => {
            proof {
                lemma_rlast_bounds(rel@, '.');
            }
            if d > seg_start {
                let mut out = take_chars(&rel, d);
                push_html_ext(&mut out);
                out
            } else {
                let mut out = rel;
                push_html_ext(&mut out);
                out
            }
        },
        None => {
            let mut out = rel;
            push_html_ext(&mut out);
            out
        },
    }
}

/// Copies the characters from position `start` on.
pub(crate) fn tail_from(path: &Vec<char>, start: usize) -> (r: Vec<char>)
    requires
        start <= path@.len(),
    ensures
        r@ == path@.skip(start as int),
{
    let mut rel: Vec<char> = Vec::new();
    let mut j: usize = start;
    proof {
        assert(path@.subrange(start as int, start as int) =~= Seq::<char>::empty());
    }
    while j < path.len()
        invariant
            start <= j <= path@.len(),
            rel@ == path@.subrange(start as int, j as int),
        decreases path@.len() - j,
    {
        rel.push(path[j]);
        proof {
            assert(path@.subrange(start as int, j as int + 1) =~= path@.subrange(
                start as int,
                j as int,
            ).push(path@[j as int]));
        }
        j = j + 1;
    }
    proof {
        assert(rel@ =~= path@.skip(start as int));
    }
    rel
}

/// Derives the output-relative path, as `output_path_of` describes.
pub fn output_path(input: &Vec<char>, path: &Vec<char>) -> (r: Option<Vec<char>>)
    ensures
        match r {
            Some(p) => output_path_of(input@, path@) == Some(p@),
            None => output_path_of(input@, path@) is None,
        },
{
    let n = input.len();
    let start: usize;
    if n == 0 {
        start = 0;
        proof {
            assert(path@.skip(0) =~= path@);
        }
    } else {
        if path.len() < n {
            return None;
        }
        let mut i: usize = 0;
        while i < n
            invariant
                0 <= i <= n,
                n == input@.len() <= path@.len(),
                forall|k: int| 0 <= k < i ==> path@[k] == input@[k],
            decreases n - i,
        {
            if path[i] != input[i] {
                proof {
                    assert(path@.take(n as int)[i as int] != input@[i as int]);
                }
                return None;
            }
            i = i + 1;
        }
        proof {
            assert(path@.take(n as int) =~= input@);
        }
        if input[n - 1] == '/' {
            start = n;
        } else if path.len() > n && path[n] == '/' {
            start = n + 1;
        } else {
            return None;
        }
    }
    let rel = tail_from(path, start);
    if rel.len() == 0 {
        return None;
    }
    if rel[0] == '/' {
        return None;
    }
    if dotdot_exec(&rel) {
        return None;
    }
    Some(html_ext_exec(rel))
}

} // verus!
