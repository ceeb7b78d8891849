//! The render plan: which pages a finished collection yields, each with its
//! template kind, its data, and its output-relative path.
use crate::collection::Articles;
use vstd::prelude::*;
use vstd::string::StringExecFns;

verus! {

/// One output page: the site index, one tag's listing, or one document.
#[derive(Debug, PartialEq, Eq)]
pub enum Page {
    Index { path: String },
    Tag { name: String, path: String, members: Vec<usize> },
    Doc { position: usize, path: String },
}

/// The mathematical form of a `Page`.
pub enum PageV {
    Index { path: Seq<char> },
    Tag { name: Seq<char>, path: Seq<char>, members: Seq<usize> },
    Doc { position: int, path: Seq<char> },
}

impl View for Page {
    type V = PageV;

    open spec fn view(&self) -> PageV {
        match self {
            Page::Index { path } => PageV::Index { path: path@ },
            Page::Tag { name, path, members } => PageV::Tag {
                name: name@,
                path: path@,
                members: members@,
            },
            Page::Doc { position, path } => PageV::Doc { position: *position as int, path: path@ },
        }
    }
}

/// The mathematical form of a sequence of pages.
pub open spec fn plan_view(p: Seq<Page>) -> Seq<PageV> {
    p.map_values(|x: Page| x@)
}

/// The pages a collection yields, in emission order: one page per tag at
/// `tag/<name>.html` listing the positions of the documents carrying it;
/// then the site index at `index.html`; then one page per document at its
/// own output-relative path.
pub open spec fn spec_plan(tags: Seq<(String, Vec<usize>)>, inner: Seq<crate::article::Article>)
    -> Seq<PageV> {
    Seq::new(
        tags.len(),
        |k: int|
            PageV::Tag {
                name: tags[k].0@,
                path: "tag/"@ + tags[k].0@ + ".html"@,
                members: tags[k].1@,
            },
    ) + seq![PageV::Index { path: "index.html"@ }] + Seq::new(
        inner.len(),
        |i: int| PageV::Doc { position: i, path: inner[i]@.path },
    )
}

proof fn lemma_plan_view_push(a: Seq<Page>, x: Page)
    ensures
        plan_view(a.push(x)) == plan_view(a).push(x@),
{
    assert forall|m: int| 0 <= m < plan_view(a.push(x)).len() implies plan_view(a.push(x))[m]
        == plan_view(a).push(x@)[m] by {
        if m < a.len() {
            assert(a.push(x)[m] == a[m]);
        } else {
            assert(a.push(x)[m] == x);
        }
    }
    assert(plan_view(a.push(x)) =~= plan_view(a).push(x@));
}

proof fn lemma_take_succ<A>(s: Seq<A>, k: int)
    requires
        0 <= k < s.len(),
    ensures
        s.take(k).push(s[k]) == s.take(k + 1),
{
    assert(s.take(k).push(s[k]) =~= s.take(k + 1));
}

proof fn lemma_plan_index(
    tags: Seq<(String, Vec<usize>)>,
    inner: Seq<crate::article::Article>,
    m: int,
)
    requires
        0 <= m < tags.len() + 1 + inner.len(),
    ensures
        spec_plan(tags, inner).len() == tags.len() + 1 + inner.len(),
        m < tags.len() ==> spec_plan(tags, inner)[m] == (PageV::Tag {
            name: tags[m].0@,
            path: "tag/"@ + tags[m].0@ + ".html"@,
            members: tags[m].1@,
        }),
        m == tags.len() ==> spec_plan(tags, inner)[m] == (PageV::Index { path: "index.html"@ }),
        m > tags.len() ==> spec_plan(tags, inner)[m] == (PageV::Doc {
            position: m - tags.len() - 1,
            path: inner[m - tags.len() - 1]@.path,
        }),
{
}

/// Copies a vector of positions.
fn copy_positions(v: &Vec<usize>) -> (r: Vec<usize>)
    ensures
        r@ == v@,
{
    let mut r: Vec<usize> = Vec::new();
    let mut i: usize = 0;
    while i < v.len()
        invariant
            0 <= i <= v@.len(),
            r@ == v@.take(i as int),
        decreases v@.len() - i,
    {
        r.push(v[i]);
        proof {
            assert(v@.take(i as int + 1) =~= v@.take(i as int).push(v@[i as int]));
        }
        i = i + 1;
    }
    proof {
        assert(v@.take(v@.len() as int) =~= v@);
    }
    r
}

/// Derives the render plan of a collection, as `spec_plan` describes. The
/// plan is a function of the collection alone: planning the same collection
/// again yields the same pages, in the same order, at the same paths.
pub fn plan_pages(arts: &Articles) -> (r: Vec<Page>)
    ensures
        plan_view(r@) == spec_plan(arts.tags@, arts.inner@),
{
    let ghost goal = spec_plan(arts.tags@, arts.inner@);
    let mut r: Vec<Page> = Vec::new();
    let nt = arts.tags.len();
    let mut k: usize = 0;
    proof {
        assert(plan_view(r@) =~= spec_plan(arts.tags@, arts.inner@).take(0));
    }
    while k < nt
        invariant
            0 <= k <= nt,
            nt == arts.tags@.len(),
            plan_view(r@) == spec_plan(arts.tags@, arts.inner@).take(k as int),
        decreases nt - k,
    {
        let ghost r0 = r@;
        let name = arts.tags[k].0.clone();
        let path = String::from_str("tag/").concat(name.as_str()).concat(".html");
        let members = copy_positions(&arts.tags[k].1);
        let page = Page::Tag { name, path, members };
        proof {
            lemma_plan_index(arts.tags@, arts.inner@, k as int);
            assert(page@ == spec_plan(arts.tags@, arts.inner@)[k as int]);
        }
        r.push(page);
        proof {
            lemma_plan_view_push(r0, page);
            lemma_take_succ(spec_plan(arts.tags@, arts.inner@), k as int);
            assert(plan_view(r@) == spec_plan(arts.tags@, arts.inner@).take(k as int + 1));
        }
        k = k + 1;
    }
    let ghost r1 = r@;
    let index_page = Page::Index { path: String::from_str("index.html") };
    proof {
        lemma_plan_index(arts.tags@, arts.inner@, nt as int);
        assert(index_page@ == goal[nt as int]);
    }
    r.push(index_page);
    proof {
        lemma_plan_view_push(r1, index_page);
        lemma_take_succ(goal, nt as int);
        assert(plan_view(r@) == goal.take(nt as int + 1));
    }
    let nd = arts.inner.len();
    let mut i: usize = 0;
    while i < nd
        invariant
            0 <= i <= nd,
            nd == arts.inner@.len(),
            nt == arts.tags@.len(),
            goal == spec_plan(arts.tags@, arts.inner@),
            plan_view(r@) == goal.take(nt as int + 1 + i as int),
        decreases nd - i,
    {
        let ghost r2 = r@;
        let page = Page::Doc { position: i, path: arts.inner[i].path.clone() };
        proof {
            lemma_plan_index(arts.tags@, arts.inner@, nt as int + 1 + i as int);
            assert(page@ == goal[nt as int + 1 + i as int]);
        }
        r.push(page);
        proof {
            lemma_plan_view_push(r2, page);
            lemma_take_succ(goal, nt as int + 1 + i as int);
            assert(plan_view(r@) == goal.take(nt as int + 1 + i as int + 1));
        }
        i = i + 1;
    }
    proof {
        assert(goal.len() == nt as int + 1 + nd as int);
        assert(goal.take(goal.len() as int) =~= goal);
    }
    r
}

} // verus!
