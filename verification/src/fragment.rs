//! A conservative safety screen for HTML fragments, run before the fragment
//! is handed to the outside HTML parser.
//!
//! The outside parser (html_editor 0.7.0) panics on some fragments its
//! signature admits: a `<script>` or `<style>` element whose body is shorter
//! than the closing tag's suffix underflows an index; the comments `<!-->`
//! and `<!--->` and every `<?...>` declaration slice with inverted or
//! mid-character ranges; a tag name holding a multi-byte character before a
//! space is sliced at a character position taken for a byte offset; and
//! several attribute shapes (an unmatched quote, a trailing `=`) abort its
//! attribute parser. `safe_fragment` admits only fragments built from plain
//! text, comments of the ordinary form, and simple tags — an ASCII
//! alphanumeric name, space-separated attributes with quoted or unquoted
//! values free of quotes and backslashes, no `script` or `style` start tag —
//! a set on which that parser returns normally. Everything else is screened
//! out, and the caller treats the fragment as having no element tree.
use vstd::prelude::*;

verus! {

/// An ASCII letter.
pub open spec fn is_alpha(c: char) -> bool {
    (0x41 <= c as u32 && c as u32 <= 0x5A) || (0x61 <= c as u32 && c as u32 <= 0x7A)
}

/// An ASCII letter or digit.
pub open spec fn is_alnum(c: char) -> bool {
    is_alpha(c) || (0x30 <= c as u32 && c as u32 <= 0x39)
}

/// A character an attribute key may hold: ASCII, visible, and none of the
/// characters the outside tokenizer or attribute parser treats specially.
pub open spec fn is_key_char(c: char) -> bool {
    &&& 0x21 <= c as u32 <= 0x7E
    &&& c != '"'
    &&& c != '\''
    &&& c != '='
    &&& c != '<'
    &&& c != '>'
    &&& c != '/'
    &&& c != '\\'
}

/// A character an unquoted attribute value may hold: anything but the
/// separators, quotes and the backslash.
pub open spec fn is_uval_char(c: char) -> bool {
    &&& c != ' '
    &&& c != '\t'
    &&& c != '\n'
    &&& c != '\r'
    &&& c != '"'
    &&& c != '\''
    &&& c != '<'
    &&& c != '>'
    &&& c != '/'
    &&& c != '\\'
}

/// Where the scan of a fragment stands: in plain text, inside a comment, or
/// at one of the positions within a simple tag.
#[derive(Clone, Copy, PartialEq, Eq, Debug)]
pub enum ScanSt {
    /// Outside any tag.
    Text,
    /// Just after `<`.
    SpanStart,
    /// Inside the name of an end tag, after `</`.
    EndName,
    /// Inside a start tag's name.
    Name,
    /// After a `/` that must close the tag.
    Slash,
    /// Between attributes.
    Attrs,
    /// Inside an attribute key.
    Key,
    /// Just after `=`.
    Eq,
    /// Inside an unquoted attribute value.
    UVal,
    /// After a `/` inside or after an unquoted value.
    USlash,
    /// Inside a quoted attribute value, under the given quote.
    Quoted(char),
    /// Inside a comment, seeking `-->`.
    Comment,
}

/// The fragment's opening at position `j` spells `script` or `style`
/// followed by a space or `>`, which would start the special raw-text mode
/// whose closing-tag search underflows.
pub open spec fn is_raw_text_open(s: Seq<char>, j: int) -> bool {
    ||| (j + 6 < s.len() && s[j] == 's' && s[j + 1] == 'c' && s[j + 2] == 'r' && s[j + 3] == 'i'
        && s[j + 4] == 'p' && s[j + 5] == 't' && (s[j + 6] == ' ' || s[j + 6] == '>'))
    ||| (j + 5 < s.len() && s[j] == 's' && s[j + 1] == 't' && s[j + 2] == 'y' && s[j + 3] == 'l'
        && s[j + 4] == 'e' && (s[j + 5] == ' ' || s[j + 5] == '>'))
}

/// Whether the scan, standing at position `j` in state `st`, accepts the
/// rest of the fragment. Reaching the end in any state is safe: the outside
/// tokenizer turns an unfinished tag, quote or comment into plain text.
pub open spec fn scan_ok(s: Seq<char>, j: int, st: ScanSt) -> bool
    decreases s.len() - j,
{
    if j < 0 || j >= s.len() {
        true
    } else {
        let c = s[j];
        match st {
            ScanSt::Text => {
                if c == '<' {
                    scan_ok(s, j + 1, ScanSt::SpanStart)
                } else {
                    scan_ok(s, j + 1, ScanSt::Text)
                }
            },
            ScanSt::SpanStart => {
                if c == '!' {
                    if j + 2 < s.len() && s[j + 1] == '-' && s[j + 2] == '-' {
                        // A comment opens. The closings `<!-->` and `<!--->`
                        // make the outside parser slice an inverted range.
                        if j + 3 < s.len() && s[j + 3] == '>' {
                            false
                        } else if j + 4 < s.len() && s[j + 3] == '-' && s[j + 4] == '>' {
                            false
                        } else {
                            scan_ok(s, j + 3, ScanSt::Comment)
                        }
                    } else {
                        false
                    }
                } else if c == '/' {
                    scan_ok(s, j + 1, ScanSt::EndName)
                } else if c == '<' {
                    scan_ok(s, j + 1, ScanSt::SpanStart)
                } else if is_raw_text_open(s, j) {
                    false
                } else if is_alpha(c) {
                    scan_ok(s, j + 1, ScanSt::Name)
                } else {
                    false
                }
            },
            ScanSt::EndName => {
                if is_alnum(c) {
                    scan_ok(s, j + 1, ScanSt::EndName)
                } else if c == '>' {
                    scan_ok(s, j + 1, ScanSt::Text)
                } else if c == '<' {
                    scan_ok(s, j + 1, ScanSt::SpanStart)
                } else {
                    false
                }
            },
            ScanSt::Name => {
                if is_alnum(c) {
                    scan_ok(s, j + 1, ScanSt::Name)
                } else if c == '>' {
                    scan_ok(s, j + 1, ScanSt::Text)
                } else if c == ' ' {
                    scan_ok(s, j + 1, ScanSt::Attrs)
                } else if c == '/' {
                    scan_ok(s, j + 1, ScanSt::Slash)
                } else if c == '<' {
                    scan_ok(s, j + 1, ScanSt::SpanStart)
                } else {
                    false
                }
            },
            ScanSt::Slash => {
                if c == '>' {
                    scan_ok(s, j + 1, ScanSt::Text)
                } else {
                    false
                }
            },
            ScanSt::Attrs => {
                if c == ' ' {
                    scan_ok(s, j + 1, ScanSt::Attrs)
                } else if c == '>' {
                    scan_ok(s, j + 1, ScanSt::Text)
                } else if c == '/' {
                    scan_ok(s, j + 1, ScanSt::Slash)
                } else if c == '<' {
                    scan_ok(s, j + 1, ScanSt::SpanStart)
                } else if is_key_char(c) {
                    scan_ok(s, j + 1, ScanSt::Key)
                } else {
                    false
                }
            },
            ScanSt::Key => {
                if is_key_char(c) {
                    scan_ok(s, j + 1, ScanSt::Key)
                } else if c == '=' {
                    scan_ok(s, j + 1, ScanSt::Eq)
                } else if c == ' ' {
                    scan_ok(s, j + 1, ScanSt::Attrs)
                } else if c == '>' {
                    scan_ok(s, j + 1, ScanSt::Text)
                } else if c == '/' {
                    scan_ok(s, j + 1, ScanSt::Slash)
                } else if c == '<' {
                    scan_ok(s, j + 1, ScanSt::SpanStart)
                } else {
                    false
                }
            },
            ScanSt::Eq => {
                if c == '"' || c == '\'' {
                    scan_ok(s, j + 1, ScanSt::Quoted(c))
                } else if is_uval_char(c) {
                    scan_ok(s, j + 1, ScanSt::UVal)
                } else {
                    false
                }
            },
            ScanSt::UVal => {
                if is_uval_char(c) {
                    scan_ok(s, j + 1, ScanSt::UVal)
                } else if c == ' ' {
                    scan_ok(s, j + 1, ScanSt::Attrs)
                } else if c == '>' {
                    scan_ok(s, j + 1, ScanSt::Text)
                } else if c == '/' {
                    scan_ok(s, j + 1, ScanSt::USlash)
                } else if c == '<' {
                    scan_ok(s, j + 1, ScanSt::SpanStart)
                } else {
                    false
                }
            },
            ScanSt::USlash => {
                if c == '>' {
                    scan_ok(s, j + 1, ScanSt::Text)
                } else if is_uval_char(c) {
                    scan_ok(s, j + 1, ScanSt::UVal)
                } else if c == '/' {
                    scan_ok(s, j + 1, ScanSt::USlash)
                } else if c == ' ' {
                    scan_ok(s, j + 1, ScanSt::Attrs)
                } else if c == '<' {
                    scan_ok(s, j + 1, ScanSt::SpanStart)
                } else {
                    false
                }
            },
            ScanSt::Quoted(q) => {
                if c == q {
                    scan_ok(s, j + 1, ScanSt::Attrs)
                } else if c == '\\' {
                    false
                } else {
                    scan_ok(s, j + 1, ScanSt::Quoted(q))
                }
            },
            ScanSt::Comment => {
                if j >= 2 && s[j - 2] == '-' && s[j - 1] == '-' && c == '>' {
                    scan_ok(s, j + 1, ScanSt::Text)
                } else {
                    scan_ok(s, j + 1, ScanSt::Comment)
                }
            },
        }
    }
}

/// The fragments the safety screen admits.
pub open spec fn safe_fragment(s: Seq<char>) -> bool {
    scan_ok(s, 0, ScanSt::Text)
}

/// Decides `is_alpha`.
fn alpha_exec(c: char) -> (r: bool)
    ensures
        r == is_alpha(c),
{
    let n = c as u32;
    (0x41 <= n && n <= 0x5A) || (0x61 <= n && n <= 0x7A)
}

/// Decides `is_alnum`.
fn alnum_exec(c: char) -> (r: bool)
    ensures
        r == is_alnum(c),
{
    alpha_exec(c) || {
        let n = c as u32;
        0x30 <= n && n <= 0x39
    }
}

/// Decides `is_key_char`.
fn key_char_exec(c: char) -> (r: bool)
    ensures
        r == is_key_char(c),
{
    let n = c as u32;
    0x21 <= n && n <= 0x7E && c != '"' && c != '\'' && c != '=' && c != '<' && c != '>' && c != '/'
        && c != '\\'
}

/// Decides `is_uval_char`.
fn uval_char_exec(c: char) -> (r: bool)
    ensures
        r == is_uval_char(c),
{
    c != ' ' && c != '\t' && c != '\n' && c != '\r' && c != '"' && c != '\'' && c != '<' && c != '>'
        && c != '/' && c != '\\'
}

/// Decides `is_raw_text_open`.
fn raw_text_open_exec(v: &Vec<char>, j: usize) -> (r: bool)
    requires
        j < v@.len(),
    ensures
        r == is_raw_text_open(v@, j as int),
{
    let script = v.len() - j > 6 && v[j] == 's' && v[j + 1] == 'c' && v[j + 2] == 'r' && v[j + 3]
        == 'i' && v[j + 4] == 'p' && v[j + 5] == 't' && (v[j + 6] == ' ' || v[j + 6] == '>');
    let style = v.len() - j > 5 && v[j] == 's' && v[j + 1] == 't' && v[j + 2] == 'y' && v[j + 3]
        == 'l' && v[j + 4] == 'e' && (v[j + 5] == ' ' || v[j + 5] == '>');
    script || style
}

/// Decides `safe_fragment`.
pub fn fragment_is_safe(v: &Vec<char>) -> (r: bool)
    ensures
        r == safe_fragment(v@),
{
    let mut j: usize = 0;
    let mut st = ScanSt::Text;
    let n = v.len();
    while j < n
        invariant
            0 <= j <= n,
            n == v@.len(),
            safe_fragment(v@) == scan_ok(v@, j as int, st),
        decreases n - j,
    {
        let c = v[j];
        match st {
            ScanSt::Text => {
                if c == '<' {
                    st = ScanSt::SpanStart;
                } else {
                    st = ScanSt::Text;
                }
                j = j + 1;
            },
            ScanSt::SpanStart => {
                if c == '!' {
                    if n - j > 2 && v[j + 1] == '-' && v[j + 2] == '-' {
                        if n - j > 3 && v[j + 3] == '>' {
                            return false;
                        }
                        if n - j > 4 && v[j + 3] == '-' && v[j + 4] == '>' {
                            return false;
                        }
                        st = ScanSt::Comment;
                        j = j + 3;
                    } else {
                        return false;
                    }
                } else if c == '/' {
                    st = ScanSt::EndName;
                    j = j + 1;
                } else if c == '<' {
                    st = ScanSt::SpanStart;
                    j = j + 1;
                } else if raw_text_open_exec(v, j) {
                    return false;
                } else if alpha_exec(c) {
                    st = ScanSt::Name;
                    j = j + 1;
                } else {
                    return false;
                }
            },
            ScanSt::EndName => {
                if alnum_exec(c) {
                    st = ScanSt::EndName;
                } else if c == '>' {
                    st = ScanSt::Text;
                } else if c == '<' {
                    st = ScanSt::SpanStart;
                } else {
                    return false;
                }
                j = j + 1;
            },
            ScanSt::Name => {
                if alnum_exec(c) {
                    st = ScanSt::Name;
                } else if c == '>' {
                    st = ScanSt::Text;
                } else if c == ' ' {
                    st = ScanSt::Attrs;
                } else if c == '/' {
                    st = ScanSt::Slash;
                } else if c == '<' {
                    st = ScanSt::SpanStart;
                } else {
                    return false;
                }
                j = j + 1;
            },
            ScanSt::Slash => {
                if c == '>' {
                    st = ScanSt::Text;
                } else {
                    return false;
                }
                j = j + 1;
            },
            ScanSt::Attrs => {
                if c == ' ' {
                    st = ScanSt::Attrs;
                } else if c == '>' {
                    st = ScanSt::Text;
                } else if c == '/' {
                    st = ScanSt::Slash;
                } else if c == '<' {
                    st = ScanSt::SpanStart;
                } else if key_char_exec(c) {
                    st = ScanSt::Key;
                } else {
                    return false;
                }
                j = j + 1;
            },
            ScanSt::Key => {
                if key_char_exec(c) {
                    st = ScanSt::Key;
                } else if c == '=' {
                    st = ScanSt::Eq;
                } else if c == ' ' {
                    st = ScanSt::Attrs;
                } else if c == '>' {
                    st = ScanSt::Text;
                } else if c == '/' {
                    st = ScanSt::Slash;
                } else if c == '<' {
                    st = ScanSt::SpanStart;
                } else {
                    return false;
                }
                j = j + 1;
            },
            ScanSt::Eq => {
                if c == '"' || c == '\'' {
                    st = ScanSt::Quoted(c);
                } else if uval_char_exec(c) {
                    st = ScanSt::UVal;
                } else {
                    return false;
                }
                j = j + 1;
            },
            ScanSt::UVal => {
                if uval_char_exec(c) {
                    st = ScanSt::UVal;
                } else if c == ' ' {
                    st = ScanSt::Attrs;
                } else if c == '>' {
                    st = ScanSt::Text;
                } else if c == '/' {
                    st = ScanSt::USlash;
                } else if c == '<' {
                    st = ScanSt::SpanStart;
                } else {
                    return false;
                }
                j = j + 1;
            },
            ScanSt::USlash => {
                if c == '>' {
                    st = ScanSt::Text;
                } else if uval_char_exec(c) {
                    st = ScanSt::UVal;
                } else if c == '/' {
                    st = ScanSt::USlash;
                } else if c == ' ' {
                    st = ScanSt::Attrs;
                } else if c == '<' {
                    st = ScanSt::SpanStart;
                } else {
                    return false;
                }
                j = j + 1;
            },
            ScanSt::Quoted(q) => {
                if c == q {
                    st = ScanSt::Attrs;
                } else if c == '\\' {
                    return false;
                } else {
                    st = ScanSt::Quoted(q);
                }
                j = j + 1;
            },
            ScanSt::Comment => {
                if j >= 2 && v[j - 2] == '-' && v[j - 1] == '-' && c == '>' {
                    st = ScanSt::Text;
                } else {
                    st = ScanSt::Comment;
                }
                j = j + 1;
            },
        }
    }
    true
}

} // verus!
