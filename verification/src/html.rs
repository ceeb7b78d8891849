//! The body's HTML tree, reduced to what the summary and section passes read,
//! with the trusted conversions from markdown and from serialized HTML.
use crate::fragment::{fragment_is_safe, safe_fragment};
use crate::text::{
    chars_of, is_ws, lemma_trim_end_prefix, lower_of, lowercase, str_eq, string_from_chars,
    take_chars, take_spec, trim_chars, trim_end_spec, trim_spec, trim_start_spec,
    underscore_spaces, underscored,
};
use vstd::prelude::*;
use vstd::string::StringExecFns;

verus! {

/// One node of the body's HTML tree: a text node, an element with its
/// children, or anything else (comments, doctypes), which carries no text.
pub enum HtmlNode {
    Text(String),
    Element(Elem),
    Other,
}

/// An element node: its tag name and child nodes.
pub struct Elem {
    pub name: String,
    pub children: Vec<HtmlNode>,
}

/// A heading's entry in the in-page navigation: the heading text, the anchor
/// slug derived from it, and the heading level digit.
#[derive(Debug, PartialEq, Eq)]
pub struct Section {
    pub value: String,
    pub href: String,
    pub level: char,
}

/// The mathematical form of a `Section`.
pub struct SectionV {
    pub value: Seq<char>,
    pub href: Seq<char>,
    pub level: char,
}

impl View for Section {
    type V = SectionV;

    open spec fn view(&self) -> SectionV {
        SectionV { value: self.value@, href: self.href@, level: self.level }
    }
}

/// The mathematical form of a sequence of `Section`s.
pub open spec fn secs_view(v: Seq<Section>) -> Seq<SectionV> {
    v.map_values(|s: Section| s@)
}

proof fn lemma_secs_view_push(a: Seq<Section>, x: Section)
    ensures
        secs_view(a.push(x)) == secs_view(a) + seq![x@],
{
    assert forall|k: int| 0 <= k < secs_view(a.push(x)).len() implies secs_view(a.push(x))[k] == (
    secs_view(a) + seq![x@])[k] by {
        if k < a.len() {
            assert(a.push(x)[k] == a[k]);
        } else {
            assert(a.push(x)[k] == x);
        }
    }
    assert(secs_view(a.push(x)) =~= secs_view(a) + seq![x@]);
}

proof fn lemma_secs_view_concat(a: Seq<Section>, b: Seq<Section>)
    ensures
        secs_view(a + b) == secs_view(a) + secs_view(b),
{
    assert forall|k: int| 0 <= k < secs_view(a + b).len() implies secs_view(a + b)[k] == (secs_view(
        a,
    ) + secs_view(b))[k] by {
        if k < a.len() {
            assert((a + b)[k] == a[k]);
        } else {
            assert((a + b)[k] == b[k - a.len()]);
        }
    }
    assert(secs_view(a + b) =~= secs_view(a) + secs_view(b));
}

/// All text held by the nodes of `s` from position `i` on: descendant text
/// nodes concatenated depth-first, in document order.
pub open spec fn text_from(s: Seq<HtmlNode>, i: int) -> Seq<char>
    decreases s, s.len() - i,
{
    if i < 0 || i >= s.len() {
        Seq::empty()
    } else {
        (match s[i] {
            HtmlNode::Text(t) => t@,
            HtmlNode::Element(e) => text_from(e.children@, 0),
            HtmlNode::Other => Seq::empty(),
        }) + text_from(s, i + 1)
    }
}

/// All text held by an element's descendants.
pub open spec fn text_of_children(e: Elem) -> Seq<char> {
    text_from(e.children@, 0)
}

/// The first element named `p`, depth-first from position `i`, the element
/// itself before its children.
pub open spec fn first_para_from(s: Seq<HtmlNode>, i: int) -> Option<Elem>
    decreases s, s.len() - i,
{
    if i < 0 || i >= s.len() {
        None
    } else {
        match s[i] {
            HtmlNode::Element(e) => if e.name@ == "p"@ {
                Some(e)
            } else {
                match first_para_from(e.children@, 0) {
                    Some(r) => Some(r),
                    None => first_para_from(s, i + 1),
                }
            },
            _ => first_para_from(s, i + 1),
        }
    }
}

/// A tag name of a heading at levels 2 through 6.
pub open spec fn is_heading_name(n: Seq<char>) -> bool {
    n == "h2"@ || n == "h3"@ || n == "h4"@ || n == "h5"@ || n == "h6"@
}

/// The section entry a heading element yields, if its first child is a text
/// node: the text, a slug of it, and the level digit from the tag name.
pub open spec fn section_of_heading(e: Elem) -> Option<SectionV> {
    if e.children@.len() > 0 && e.children@.first() is Text {
        Some(
            SectionV {
                value: e.children@.first()->Text_0@,
                href: underscored(lower_of(e.children@.first()->Text_0@)),
                level: e.name@[1],
            },
        )
    } else {
        None
    }
}

/// The section entries of every heading element at levels 2 through 6, in
/// document order, depth-first from position `i`; headings whose first child
/// is not a text node are skipped.
pub open spec fn secs_from(s: Seq<HtmlNode>, i: int) -> Seq<SectionV>
    decreases s, s.len() - i,
{
    if i < 0 || i >= s.len() {
        Seq::empty()
    } else {
        (match s[i] {
            HtmlNode::Element(e) => (if is_heading_name(e.name@) {
                match section_of_heading(e) {
                    Some(sv) => seq![sv],
                    None => Seq::empty(),
                }
            } else {
                Seq::empty()
            }) + secs_from(e.children@, 0),
            _ => Seq::empty(),
        }) + secs_from(s, i + 1)
    }
}

/// The derived summary of a body tree: the first paragraph's text, cut to 300
/// characters, trimmed, with an ellipsis appended; empty without a paragraph.
pub open spec fn summary_of(dom: Seq<HtmlNode>) -> Seq<char> {
    match first_para_from(dom, 0) {
        Some(p) => trim_spec(take_spec(text_of_children(p), 300)) + "..."@,
        None => Seq::empty(),
    }
}

/// The summary bound: when the first paragraph's flattened text holds at
/// least 300 characters, and neither the first nor the three-hundredth is
/// whitespace, the summary's content — all of it but the ellipsis — is
/// exactly the text's first 300 characters: 300 long, and a prefix of the
/// trimmed flattened text.
pub proof fn lemma_summary_bound(dom: Seq<HtmlNode>)
    requires
        first_para_from(dom, 0) is Some,
        text_of_children(first_para_from(dom, 0)->Some_0).len() >= 300,
        !is_ws(text_of_children(first_para_from(dom, 0)->Some_0)[0]),
        !is_ws(text_of_children(first_para_from(dom, 0)->Some_0)[299]),
    ensures
        summary_of(dom) == text_of_children(first_para_from(dom, 0)->Some_0).take(300) + "..."@,
        text_of_children(first_para_from(dom, 0)->Some_0).take(300).len() == 300,
        text_of_children(first_para_from(dom, 0)->Some_0).take(300).is_prefix_of(
            trim_spec(text_of_children(first_para_from(dom, 0)->Some_0)),
        ),
{
    let t = text_of_children(first_para_from(dom, 0)->Some_0);
    let c = take_spec(t, 300);
    assert(c =~= t.take(300));
    assert(c.len() == 300);
    assert(c.first() == t[0] && c.last() == t[299]);
    assert(trim_start_spec(c) == c);
    assert(trim_end_spec(c) == c);
    assert(trim_spec(c) == c);
    assert(summary_of(dom) == c + "..."@);
    assert(trim_start_spec(t) == t);
    lemma_trim_end_prefix(t);
    let w = trim_end_spec(t);
    assert(trim_spec(t) == w);
    assert(w =~= t.subrange(0, w.len() as int));
    assert(299 < w.len());
    assert forall|i: int| 0 <= i < 300 implies c[i] == w[i] by {
        assert(w[i] == t[i]);
    }
    assert(c =~= w.subrange(0, 300));
    assert(c.is_prefix_of(w));
}

/// What the markdown converter yields for a given body text.
pub uninterp spec fn html_of(md: Seq<char>) -> Seq<char>;

/// Converts a markdown body to an HTML fragment.
///
/// Relies on pulldown_cmark's `Parser::new_ext` and `html::push_html`, with
/// the strikethrough and table extensions enabled: the fragment produced is a
/// function of the input text alone, named `html_of`.
#[verifier::external_body]
pub fn markdown_to_html(md: &str) -> (r: String)
    ensures
        r@ == html_of(md@),
{
    let mut opts = pulldown_cmark::Options::empty();
    opts.insert(pulldown_cmark::Options::ENABLE_STRIKETHROUGH);
    opts.insert(pulldown_cmark::Options::ENABLE_TABLES);
    let parser = pulldown_cmark::Parser::new_ext(md, opts);
    let mut out = String::new();
    pulldown_cmark::html::push_html(&mut out, parser);
    out
}

#[verifier::external_type_specification]
#[verifier::external_body]
pub struct ExNode(html_editor::Node);

/// Maps html_editor's node tree onto the library's, one node for one: element
/// names, children and text are moved; attributes are dropped; comment and
/// doctype nodes become `HtmlNode::Other`. Trusted alongside `parse_html`.
#[verifier::external_body]
fn nodes_from_editor(nodes: Vec<html_editor::Node>) -> Vec<HtmlNode> {
    nodes.into_iter().map(
        |n|
            match n {
                html_editor::Node::Text(t) => HtmlNode::Text(t),
                html_editor::Node::Element(e) => HtmlNode::Element(
                    Elem { name: e.name, children: nodes_from_editor(e.children) },
                ),
                html_editor::Node::Comment(_) => HtmlNode::Other,
                html_editor::Node::Doctype(_) => HtmlNode::Other,
            },
    ).collect()
}

/// What parsing an HTML fragment yields, as the library's reduced node tree.
pub uninterp spec fn dom_of(html: Seq<char>) -> Seq<HtmlNode>;

/// Parses an HTML fragment into the reduced node tree.
///
/// Relies on `html_editor::parse`: the tree is a function of the fragment
/// alone, named `dom_of`; a fragment it rejects with an error yields the
/// empty tree. That function panics on some inputs (raw-text elements with
/// short bodies, the comments `<!-->` and `<!--->`, `<?...>` declarations,
/// multi-byte characters or stray quotes inside a tag), so only fragments
/// the safety screen admits may be handed to it: within `safe_fragment` it
/// returns normally. The conversion to the library's nodes is
/// `nodes_from_editor` above.
#[verifier::external_body]
pub fn parse_html(html: &str) -> (r: Vec<HtmlNode>)
    requires
        safe_fragment(html@),
    ensures
        r@ == dom_of(html@),
{
    nodes_from_editor(html_editor::parse(html).unwrap_or_default())
}

/// The node tree the pipeline derives from a fragment: what the HTML parser
/// yields where the safety screen admits the fragment, the empty tree — no
/// paragraph, no headings — where it does not.
pub open spec fn dom_for(html: Seq<char>) -> Seq<HtmlNode> {
    if safe_fragment(html) {
        dom_of(html)
    } else {
        Seq::empty()
    }
}

/// Screens a fragment and parses it, as `dom_for` describes.
pub fn parse_fragment(html: &str) -> (r: Vec<HtmlNode>)
    ensures
        r@ == dom_for(html@),
{
    let chars = chars_of(html);
    if fragment_is_safe(&chars) {
        parse_html(html)
    } else {
        let empty: Vec<HtmlNode> = Vec::new();
        proof {
            assert(empty@ =~= Seq::<HtmlNode>::empty());
        }
        empty
    }
}

/// Appends to `output` all plain text from all text nodes under an element,
/// depth-first, in document order.
pub fn extract_all_text(output: &mut String, el: &Elem)
    ensures
        final(output)@ == old(output)@ + text_of_children(*el),
    decreases *el,
{
    let ghost s = el.children@;
    let n = el.children.len();
    let mut i: usize = 0;
    proof {
        assert(old(output)@ + Seq::<char>::empty() =~= old(output)@);
    }
    while i < n
        invariant
            n == el.children.len(),
            s == el.children@,
            0 <= i <= n,
            output@ + text_from(s, i as int) == old(output)@ + text_from(s, 0),
        decreases n - i,
    {
        let ghost before = output@;
        match &el.children[i] {
            HtmlNode::Text(t) => {
                output.append(t.as_str());
                proof {
                    assert((before + t@) + text_from(s, i + 1) =~= before + (t@ + text_from(
                        s,
                        i + 1,
                    )));
                }
            },
            HtmlNode::Element(e) => {
                extract_all_text(output, e);
                proof {
                    assert((before + text_from(e.children@, 0)) + text_from(s, i + 1) =~= before + (
                    text_from(e.children@, 0) + text_from(s, i + 1)));
                }
            },
            HtmlNode::Other => {
                proof {
                    assert(before + (Seq::<char>::empty() + text_from(s, i + 1)) =~= before
                        + text_from(s, i + 1));
                }
            },
        }
        i = i + 1;
    }
    proof {
        assert(output@ + Seq::<char>::empty() =~= output@);
    }
}

/// Finds the first element named `p`, depth-first, in document order.
pub fn find_first_para<'a>(nodes: &'a Vec<HtmlNode>) -> (r: Option<&'a Elem>)
    ensures
        match r {
            Some(e) => first_para_from(nodes@, 0) == Some(*e),
            None => first_para_from(nodes@, 0) is None,
        },
    decreases nodes@,
{
    let mut i: usize = 0;
    while i < nodes.len()
        invariant
            0 <= i <= nodes@.len(),
            first_para_from(nodes@, 0) == first_para_from(nodes@, i as int),
        decreases nodes@.len() - i,
    {
        match &nodes[i] {
            HtmlNode::Element(e) => {
                if str_eq(e.name.as_str(), "p") {
                    return Some(e);
                }
                let sub = find_first_para(&e.children);
                if sub.is_some() {
                    return sub;
                }
            },
            _ => {},
        }
        i = i + 1;
    }
    None
}

/// The heading level digit of a tag name, for headings at levels 2 through 6.
fn heading_level_of(name: &str) -> (r: Option<char>)
    ensures
        match r {
            Some(c) => is_heading_name(name@) && c == name@[1],
            None => !is_heading_name(name@),
        },
{
    if str_eq(name, "h2") {
        proof {
            reveal_strlit("h2");
        }
        Some('2')
    } else if str_eq(name, "h3") {
        proof {
            reveal_strlit("h3");
        }
        Some('3')
    } else if str_eq(name, "h4") {
        proof {
            reveal_strlit("h4");
        }
        Some('4')
    } else if str_eq(name, "h5") {
        proof {
            reveal_strlit("h5");
        }
        Some('5')
    } else if str_eq(name, "h6") {
        proof {
            reveal_strlit("h6");
        }
        Some('6')
    } else {
        None
    }
}

/// The anchor slug of a heading text: lowercased, spaces become underscores.
pub fn slug_of(value: &str) -> (r: String)
    ensures
        r@ == underscored(lower_of(value@)),
{
    let low = lowercase(value);
    let ch = chars_of(low.as_str());
    let und = underscore_spaces(&ch);
    string_from_chars(&und)
}

/// Collects the section entries of every heading at levels 2 through 6,
/// depth-first, in document order, as `secs_from` describes.
pub fn collect_sections(nodes: &Vec<HtmlNode>) -> (r: Vec<Section>)
    ensures
        secs_view(r@) == secs_from(nodes@, 0),
    decreases nodes@,
{
    let ghost s = nodes@;
    let mut r: Vec<Section> = Vec::new();
    let mut i: usize = 0;
    proof {
        assert(secs_view(r@) + secs_from(s, 0) =~= secs_from(s, 0));
    }
    while i < nodes.len()
        invariant
            0 <= i <= s.len(),
            s == nodes@,
            secs_view(r@) + secs_from(s, i as int) == secs_from(s, 0),
        decreases s.len() - i,
    {
        let ghost before = secs_view(r@);
        match &nodes[i] {
            HtmlNode::Element(e) => {
                let ghost own: Seq<SectionV> = if is_heading_name(e.name@) {
                    match section_of_heading(*e) {
                        Some(sv) => seq![sv],
                        None => Seq::empty(),
                    }
                } else {
                    Seq::empty()
                };
                let ghost r_before = r@;
                let lvl = heading_level_of(e.name.as_str());
                if let Some(c) = lvl {
                    if e.children.len() > 0 {
                        if let HtmlNode::Text(t) = &e.children[0] {
                            let href = slug_of(t.as_str());
                            let sec = Section { value: t.clone(), href, level: c };
                            proof {
                                assert(e.children@.first() is Text);
                                assert(section_of_heading(*e) == Some(sec@));
                                assert(own == seq![sec@]);
                            }
                            r.push(sec);
                            proof {
                                assert(r@ == r_before.push(sec));
                                lemma_secs_view_push(r_before, sec);
                            }
                        }
                    }
                }
                proof {
                    assert(secs_view(r@) =~= before + own);
                }
                let ghost r_mid = r@;
                let mut sub = collect_sections(&e.children);
                let ghost sub0 = sub@;
                r.append(&mut sub);
                proof {
                    lemma_secs_view_concat(r_mid, sub0);
                    assert(secs_view(r@) =~= (before + own) + secs_from(e.children@, 0));
                    assert(((before + own) + secs_from(e.children@, 0)) + secs_from(s, i + 1)
                        =~= before + ((own + secs_from(e.children@, 0)) + secs_from(s, i + 1)));
                }
            },
            _ => {
                proof {
                    assert(before + (Seq::<SectionV>::empty() + secs_from(s, i + 1)) =~= before
                        + secs_from(s, i + 1));
                }
            },
        }
        i = i + 1;
    }
    proof {
        assert(secs_view(r@) + Seq::<SectionV>::empty() =~= secs_view(r@));
    }
    r
}

/// Derives the summary of a body tree, as `summary_of` describes.
pub fn build_summary(nodes: &Vec<HtmlNode>) -> (r: String)
    ensures
        r@ == summary_of(nodes@),
{
    match find_first_para(nodes) {
        Some(p) => {
            let mut text = String::new();
            extract_all_text(&mut text, p);
            proof {
                assert(Seq::<char>::empty() + text_of_children(*p) =~= text_of_children(*p));
            }
            let ch = chars_of(text.as_str());
            let cut = take_chars(&ch, 300);
            let trimmed = trim_chars(&cut);
            let s = string_from_chars(&trimmed);
            s.concat("...")
        },
        None => String::new(),
    }
}

} // verus!
