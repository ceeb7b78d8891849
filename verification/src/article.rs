//! One document: parsing a source file's text into a typed, rendered record.
use crate::SiteError;
use crate::date::{date_of, localized_date, parse_date};
use crate::html::{
    Section, SectionV, build_summary, collect_sections, dom_for, html_of, markdown_to_html,
    parse_fragment, secs_from, secs_view, summary_of,
};
use crate::meta::{find_blank, find_blank_from, lemma_find_blank_bounds, meta_of, parse_meta,
    strs_view};
use crate::path::{output_path, output_path_of, tail_from};
use crate::text::{chars_of, string_from_chars, take_chars};
use vstd::prelude::*;

verus! {

/// A parsed document: its metadata, derived summary, localized date, tags
/// without duplicates, output-relative path, body HTML and section entries.
#[derive(Debug)]
pub struct Article {
    pub title: String,
    pub desc: String,
    pub date: String,
    pub tags: Vec<String>,
    pub lang: String,
    pub path: String,
    pub html: String,
    pub secs: Vec<Section>,
}

/// The mathematical form of an `Article`.
pub struct ArticleV {
    pub title: Seq<char>,
    pub desc: Seq<char>,
    pub date: Seq<char>,
    pub tags: Seq<Seq<char>>,
    pub lang: Seq<char>,
    pub path: Seq<char>,
    pub html: Seq<char>,
    pub secs: Seq<SectionV>,
}

impl View for Article {
    type V = ArticleV;

    open spec fn view(&self) -> ArticleV {
        ArticleV {
            title: self.title@,
            desc: self.desc@,
            date: self.date@,
            tags: strs_view(self.tags@),
            lang: self.lang@,
            path: self.path@,
            html: self.html@,
            secs: secs_view(self.secs@),
        }
    }
}

/// The sequence with later repetitions removed: each value keeps its first
/// position only.
pub open spec fn dedup_spec(s: Seq<Seq<char>>) -> Seq<Seq<char>>
    decreases s.len(),
{
    if s.len() == 0 {
        Seq::empty()
    } else {
        let rest = dedup_spec(s.drop_last());
        if rest.contains(s.last()) {
            rest
        } else {
            rest.push(s.last())
        }
    }
}

/// Deduplication keeps membership and introduces no repetition.
pub proof fn lemma_dedup_spec(s: Seq<Seq<char>>)
    ensures
        forall|x: Seq<char>| dedup_spec(s).contains(x) <==> s.contains(x),
        dedup_spec(s).no_duplicates(),
    decreases s.len(),
{
    if s.len() == 0 {
    } else {
        lemma_dedup_spec(s.drop_last());
        let rest = dedup_spec(s.drop_last());
        let d = dedup_spec(s);
        assert forall|x: Seq<char>| d.contains(x) implies s.contains(x) by {
            let j = choose|j: int| 0 <= j < d.len() && d[j] == x;
            if j < rest.len() {
                assert(rest[j] == x);
                assert(rest.contains(x));
                assert(s.drop_last().contains(x));
                let i = choose|i: int| 0 <= i < s.drop_last().len() && s.drop_last()[i] == x;
                assert(s[i] == x);
            } else {
                assert(s[s.len() - 1] == x);
            }
        }
        assert forall|x: Seq<char>| s.contains(x) implies d.contains(x) by {
            let i = choose|i: int| 0 <= i < s.len() && s[i] == x;
            if i < s.len() - 1 {
                assert(s.drop_last()[i] == x);
                assert(s.drop_last().contains(x));
                assert(rest.contains(x));
                let j = choose|j: int| 0 <= j < rest.len() && rest[j] == x;
                assert(d[j] == x);
                assert(d.contains(x));
            } else {
                assert(x == s.last());
                if rest.contains(s.last()) {
                    assert(d.contains(x));
                } else {
                    assert(d[rest.len() as int] == x);
                    assert(d.contains(x));
                }
            }
        }
        if !rest.contains(s.last()) {
            assert forall|i: int, j: int|
                0 <= i < d.len() && 0 <= j < d.len() && i != j implies d[i] != d[j] by {
                if i < rest.len() && j < rest.len() {
                    assert(rest[i] != rest[j]);
                } else if i < rest.len() {
                    assert(d[j] == s.last());
                    assert(rest.contains(rest[i]));
                } else {
                    assert(d[i] == s.last());
                    assert(rest.contains(rest[j]));
                }
            }
            assert(d.no_duplicates());
        }
    }
}

/// Tests membership of a string among those collected so far.
fn contains_str(v: &Vec<String>, x: &String) -> (r: bool)
    ensures
        r == strs_view(v@).contains(x@),
{
    let mut i: usize = 0;
    while i < v.len()
        invariant
            0 <= i <= v@.len(),
            forall|k: int| 0 <= k < i ==> strs_view(v@)[k] != x@,
        decreases v@.len() - i,
    {
        if v[i].eq(x) {
            proof {
                assert(strs_view(v@)[i as int] == x@);
            }
            return true;
        }
        i = i + 1;
    }
    proof {
        if strs_view(v@).contains(x@) {
            let k = choose|k: int| 0 <= k < strs_view(v@).len() && strs_view(v@)[k] == x@;
            assert(false);
        }
    }
    false
}

/// Removes duplicate tags, keeping each tag's first occurrence, as
/// `dedup_spec` describes.
pub fn dedup_strings(tags: Vec<String>) -> (r: Vec<String>)
    ensures
        strs_view(r@) == dedup_spec(strs_view(tags@)),
{
    let ghost sv = strs_view(tags@);
    let mut out: Vec<String> = Vec::new();
    let mut i: usize = 0;
    proof {
        assert(sv.take(0) =~= Seq::<Seq<char>>::empty());
        assert(strs_view(out@) =~= Seq::<Seq<char>>::empty());
    }
    let n = tags.len();
    while i < n
        invariant
            0 <= i <= n,
            n == tags@.len(),
            sv == strs_view(tags@),
            strs_view(out@) == dedup_spec(sv.take(i as int)),
        decreases n - i,
    {
        let tag = tags[i].clone();
        proof {
            assert(tag@ == sv[i as int]);
            assert(sv.take(i as int + 1).drop_last() =~= sv.take(i as int));
            assert(sv.take(i as int + 1).last() == sv[i as int]);
        }
        if !contains_str(&out, &tag) {
            let ghost o0 = out@;
            out.push(tag);
            proof {
                assert(out@ == o0.push(tags@[i as int]));
                crate::meta::lemma_strs_view_push(o0, tags@[i as int]);
                assert(strs_view(out@) == dedup_spec(sv.take(i as int + 1)));
            }
        }
        i = i + 1;
    }
    proof {
        assert(sv.take(n as int) =~= sv);
    }
    out
}

/// A document that parses carries no tag twice: its tags are deduplicated,
/// keeping first occurrences.
pub proof fn lemma_article_tags_unique(input: Seq<char>, path: Seq<char>, content: Seq<char>)
    requires
        spec_article(input, path, content) is Ok,
    ensures
        spec_article(input, path, content)->Ok_0.tags.no_duplicates(),
{
    let b = find_blank_from(content, 0)->Some_0;
    let m = meta_of(content.take(b))->Some_0;
    lemma_dedup_spec(m.tags);
}

/// What parsing one document yields: the sequential document pipeline,
/// each failing step mapped to its error.
pub open spec fn spec_article(input: Seq<char>, path: Seq<char>, content: Seq<char>) -> Result<
    ArticleV,
    SiteError,
> {
    match find_blank_from(content, 0) {
        None => Err(SiteError::MalformedDocument),
        Some(b) => {
            match meta_of(content.take(b)) {
                None => Err(SiteError::InvalidMetadata),
                Some(m) => match date_of(m.date) {
                    None => Err(SiteError::InvalidDate),
                    Some(ymd) => match localized_date(ymd.0, ymd.1, ymd.2, m.lang) {
                        None => Err(SiteError::InvalidLocale),
                        Some(datetext) => match output_path_of(input, path) {
                            None => Err(SiteError::PathResolutionError),
                            Some(rel) => {
                                let html = html_of(content.skip(b + 2));
                                let dom = dom_for(html);
                                Ok(
                                    ArticleV {
                                        title: m.title,
                                        desc: summary_of(dom),
                                        date: datetext,
                                        tags: dedup_spec(m.tags),
                                        lang: m.lang,
                                        path: rel,
                                        html: html,
                                        secs: secs_from(dom, 0),
                                    },
                                )
                            },
                        },
                    },
                },
            }
        },
    }
}

impl Article {
    /// Parses one document's text, as `spec_article` describes: the
    /// metadata block and body are split at the first blank line, the
    /// metadata decoded, the date parsed, validated and localized, the
    /// output path derived, and the body converted to HTML from which the
    /// summary and the section entries are drawn.
    pub fn read(input: &str, path: &str, content: &str) -> (r: Result<Article, SiteError>)
        ensures
            match r {
                Ok(a) => spec_article(input@, path@, content@) == Ok::<ArticleV, SiteError>(a@),
                Err(e) => spec_article(input@, path@, content@) == Err::<ArticleV, SiteError>(e),
            },
    {
        let cv = chars_of(content);
        let total = cv.len();
        let b = match find_blank(&cv) {
            Some(b) => b,
            None => {
                return Err(SiteError::MalformedDocument);
            },
        };
        proof {
            lemma_find_blank_bounds(cv@, 0);
            assert(b + 2 <= total);
        }
        let meta_src = take_chars(&cv, b);
        proof {
            assert(meta_src@ == cv@.take(b as int));
        }
        let m = match parse_meta(&meta_src) {
            Some(m) => m,
            None => {
                return Err(SiteError::InvalidMetadata);
            },
        };
        let dchars = chars_of(m.date.as_str());
        let d = match parse_date(&dchars) {
            Some(d) => d,
            None => {
                return Err(SiteError::InvalidDate);
            },
        };
        let datetext = match crate::date::format_date(d.year, d.month, d.day, m.lang.as_str()) {
            Some(t) => t,
            None => {
                return Err(SiteError::InvalidLocale);
            },
        };
        let pin = chars_of(input);
        let pth = chars_of(path);
        let rel = match output_path(&pin, &pth) {
            Some(r) => r,
            None => {
                return Err(SiteError::PathResolutionError);
            },
        };
        let body = tail_from(&cv, b + 2);
        let body_s = string_from_chars(&body);
        let html = markdown_to_html(body_s.as_str());
        let dom = parse_fragment(html.as_str());
        let desc = build_summary(&dom);
        let secs = collect_sections(&dom);
        let tags = dedup_strings(m.tags);
        Ok(
            Article {
                title: m.title,
                desc,
                date: datetext,
                tags,
                lang: m.lang,
                path: string_from_chars(&rel),
                html,
                secs,
            },
        )
    }
}

} // verus!
