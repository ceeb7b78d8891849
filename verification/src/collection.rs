//! The collection: every parsed document in final render order, with the
//! tag index built over that order.
use crate::SiteError;
use crate::article::{Article, ArticleV, spec_article};
use crate::text::{
    chars_le, chars_of, lemma_lex_antisym, lemma_lex_total, lemma_lex_trans, lex_le,
};
use vstd::multiset::Multiset;
use vstd::prelude::*;
use vstd::seq_lib::lemma_multiset_commutative;

verus! {

broadcast use vstd::seq_lib::group_to_multiset_ensures;

/// The path of an article, as a character sequence.
pub open spec fn apath(a: Article) -> Seq<char> {
    a@.path
}

/// Descending order by output path: every earlier article's path is at least
/// every later one's.
pub open spec fn sorted_desc(s: Seq<Article>) -> bool {
    forall|i: int, j: int| 0 <= i < j < s.len() ==> lex_le(apath(s[j]), apath(s[i]))
}

/// No two articles share an output path.
pub open spec fn distinct_paths(s: Seq<Article>) -> bool {
    forall|i: int, j: int| 0 <= i < j < s.len() ==> apath(s[i]) != apath(s[j])
}

/// The mathematical form of a sequence of articles.
pub open spec fn views_of(s: Seq<Article>) -> Seq<ArticleV> {
    s.map_values(|a: Article| a@)
}

/// The mathematical form of the scanned files: each a path and its text.
pub open spec fn files_view(files: Seq<(String, String)>) -> Seq<(Seq<char>, Seq<char>)> {
    files.map_values(|f: (String, String)| (f.0@, f.1@))
}

/// The articles every file of the scan yields, in scan order, provided each
/// parses.
pub open spec fn parsed_views(input: Seq<char>, files: Seq<(Seq<char>, Seq<char>)>) -> Seq<
    ArticleV,
> {
    Seq::new(files.len(), |i: int| spec_article(input, files[i].0, files[i].1)->Ok_0)
}

proof fn lemma_insert_multiset<A>(s: Seq<A>, i: int, x: A)
    requires
        0 <= i <= s.len(),
    ensures
        s.insert(i, x).to_multiset() == s.to_multiset().insert(x),
{
    broadcast use vstd::seq_lib::group_to_multiset_ensures;

    assert(s.insert(i, x) =~= s.take(i) + (seq![x] + s.skip(i)));
    lemma_multiset_commutative(s.take(i), seq![x] + s.skip(i));
    lemma_multiset_commutative(seq![x], s.skip(i));
    assert(s =~= s.take(i) + s.skip(i));
    lemma_multiset_commutative(s.take(i), s.skip(i));
    assert(seq![x] =~= Seq::<A>::empty().push(x));
    assert(Seq::<A>::empty().push(x).to_multiset() =~= Seq::<A>::empty().to_multiset().insert(x));
    assert(Seq::<A>::empty().to_multiset() =~= Multiset::<A>::empty());
    assert(s.insert(i, x).to_multiset() =~= s.to_multiset().insert(x));
}

proof fn lemma_views_of_insert(s: Seq<Article>, i: int, a: Article)
    requires
        0 <= i <= s.len(),
    ensures
        views_of(s.insert(i, a)) == views_of(s).insert(i, a@),
{
    assert forall|k: int| 0 <= k < views_of(s.insert(i, a)).len() implies views_of(
        s.insert(i, a),
    )[k] == views_of(s).insert(i, a@)[k] by {
        if k < i {
            assert(s.insert(i, a)[k] == s[k]);
        } else if k == i {
            assert(s.insert(i, a)[k] == a);
        } else {
            assert(s.insert(i, a)[k] == s[k - 1]);
        }
    }
    assert(views_of(s.insert(i, a)) =~= views_of(s).insert(i, a@));
}

/// Compares two articles' paths: the first at most the second.
fn path_le(a: &Article, b: &Article) -> (r: bool)
    ensures
        r == lex_le(apath(*a), apath(*b)),
{
    let ca = chars_of(a.path.as_str());
    let cb = chars_of(b.path.as_str());
    chars_le(&ca, &cb)
}

/// Sorts articles by output path, descending, as `sorted_desc` describes;
/// what comes out holds exactly what went in.
pub fn sort_by_path_desc(arts: Vec<Article>) -> (r: Vec<Article>)
    ensures
        sorted_desc(r@),
        r@.to_multiset() == arts@.to_multiset(),
        views_of(r@).to_multiset() == views_of(arts@).to_multiset(),
{
    broadcast use vstd::seq_lib::group_to_multiset_ensures;

    let ghost orig = arts@;
    let mut rest = arts;
    let mut out: Vec<Article> = Vec::new();
    proof {
        assert(out@.to_multiset().add(rest@.to_multiset()) =~= orig.to_multiset());
        assert(views_of(out@).to_multiset().add(views_of(rest@).to_multiset()) =~= views_of(
            orig,
        ).to_multiset());
    }
    while rest.len() > 0
        invariant
            sorted_desc(out@),
            out@.to_multiset().add(rest@.to_multiset()) == orig.to_multiset(),
            views_of(out@).to_multiset().add(views_of(rest@).to_multiset()) == views_of(
                orig,
            ).to_multiset(),
        decreases rest@.len(),
    {
        let ghost rest0 = rest@;
        let ghost out0 = out@;
        let a = rest.remove(0);
        proof {
            assert(rest@ =~= rest0.drop_first());
            assert(rest0 =~= seq![a] + rest@);
            lemma_multiset_commutative(seq![a], rest@);
            assert(seq![a] =~= Seq::<Article>::empty().push(a));
            assert(views_of(rest0) =~= seq![a@] + views_of(rest@));
            lemma_multiset_commutative(seq![a@], views_of(rest@));
            assert(seq![a@] =~= Seq::<ArticleV>::empty().push(a@));
            assert(Seq::<Article>::empty().push(a).to_multiset()
                =~= Seq::<Article>::empty().to_multiset().insert(a));
            assert(Seq::<Article>::empty().to_multiset() =~= Multiset::<Article>::empty());
            assert(Seq::<ArticleV>::empty().push(a@).to_multiset()
                =~= Seq::<ArticleV>::empty().to_multiset().insert(a@));
            assert(Seq::<ArticleV>::empty().to_multiset() =~= Multiset::<ArticleV>::empty());
        }
        let mut idx: usize = 0;
        while idx < out.len() && !path_le(&out[idx], &a)
            invariant
                0 <= idx <= out@.len(),
                forall|k: int| 0 <= k < idx ==> !lex_le(apath(out@[k]), apath(a)),
            decreases out@.len() - idx,
        {
            idx = idx + 1;
        }
        proof {
            assert forall|k: int| 0 <= k < idx implies lex_le(apath(a), apath(out0[k])) by {
                lemma_lex_total(apath(a), apath(out0[k]));
            }
        }
        out.insert(idx, a);
        proof {
            lemma_insert_multiset(out0, idx as int, a);
            lemma_views_of_insert(out0, idx as int, a);
            lemma_insert_multiset(views_of(out0), idx as int, a@);
            let n = out@;
            assert forall|i: int, j: int| 0 <= i < j < n.len() implies lex_le(
                apath(n[j]),
                apath(n[i]),
            ) by {
                if j < idx {
                } else if j == idx {
                    assert(n[j] == a);
                    assert(lex_le(apath(a), apath(out0[i])));
                } else {
                    if i < idx {
                        assert(n[j] == out0[j - 1] && n[i] == out0[i]);
                        if i < j - 1 {
                        } else {
                            assert(i == j - 1 && i == idx - 1);
                            assert(idx <= out0.len());
                            assert(lex_le(apath(out0[idx as int]), apath(a)));
                            assert(lex_le(apath(a), apath(out0[i])));
                            lemma_lex_trans(apath(out0[j - 1]), apath(a), apath(out0[i]));
                        }
                    } else if i == idx {
                        assert(n[i] == a && n[j] == out0[j - 1]);
                        assert(lex_le(apath(out0[idx as int]), apath(a)));
                        if j - 1 > idx {
                            assert(lex_le(apath(out0[j - 1]), apath(out0[idx as int])));
                            lemma_lex_trans(apath(out0[j - 1]), apath(out0[idx as int]), apath(a));
                        }
                    } else {
                        assert(n[i] == out0[i - 1] && n[j] == out0[j - 1]);
                    }
                }
            }
            assert(sorted_desc(out@));
            assert(out@.to_multiset().add(rest@.to_multiset()) =~= orig.to_multiset());
            assert(views_of(out@).to_multiset().add(views_of(rest@).to_multiset()) =~= views_of(
                orig,
            ).to_multiset());
        }
    }
    proof {
        assert(rest@ =~= Seq::<Article>::empty());
        assert(rest@.to_multiset() =~= Multiset::<Article>::empty());
        assert(views_of(rest@) =~= Seq::<ArticleV>::empty());
        assert(views_of(rest@).to_multiset() =~= Multiset::<ArticleV>::empty());
        assert(out@.to_multiset() =~= orig.to_multiset());
        assert(views_of(out@).to_multiset() =~= views_of(orig).to_multiset());
    }
    out
}

/// No tag name keys two entries of the index.
pub open spec fn keys_unique(tags: Seq<(String, Vec<usize>)>) -> bool {
    forall|k1: int, k2: int| 0 <= k1 < k2 < tags.len() ==> tags[k1].0@ != tags[k2].0@
}

/// Each entry lists its document positions in strictly increasing order.
pub open spec fn entries_increasing(tags: Seq<(String, Vec<usize>)>) -> bool {
    forall|k: int, m1: int, m2: int|
        0 <= k < tags.len() && 0 <= m1 < m2 < tags[k].1@.len() ==> tags[k].1@[m1] < tags[k].1@[m2]
}

/// Every listed position lies below `n`.
pub open spec fn entries_below(tags: Seq<(String, Vec<usize>)>, n: int) -> bool {
    forall|k: int, m: int|
        0 <= k < tags.len() && 0 <= m < tags[k].1@.len() ==> (tags[k].1@[m] as int) < n
}

/// Every entry lists at least one position: no tag keys an entry that no
/// document carries.
pub open spec fn entries_nonempty(tags: Seq<(String, Vec<usize>)>) -> bool {
    forall|k: int| 0 <= k < tags.len() ==> tags[k].1@.len() > 0
}

/// Some entry carries the tag name `t`.
pub open spec fn has_key(tags: Seq<(String, Vec<usize>)>, t: Seq<char>) -> bool {
    exists|k: int| 0 <= k < tags.len() && #[trigger] tags[k].0@ == t
}

/// A position below `hi` stands in an entry exactly when that document
/// carries the entry's tag.
pub open spec fn index_exact_upto(
    tags: Seq<(String, Vec<usize>)>,
    inner: Seq<Article>,
    hi: int,
) -> bool {
    forall|k: int, d: int|
        0 <= k < tags.len() && 0 <= d < hi && d < inner.len() ==> (#[trigger] tags[k].1@.contains(
            d as usize,
        ) <==> inner[d]@.tags.contains(tags[k].0@))
}

/// Every tag of every document below `hi` keys an entry.
pub open spec fn index_complete_upto(
    tags: Seq<(String, Vec<usize>)>,
    inner: Seq<Article>,
    hi: int,
) -> bool {
    forall|d: int, j: int|
        0 <= d < hi && d < inner.len() && 0 <= j < inner[d]@.tags.len() ==> has_key(
            tags,
            #[trigger] inner[d]@.tags[j],
        )
}

/// The tag index is exactly the inverse of the documents' tags: unique keys,
/// increasing in-range positions, membership both sound and complete.
pub open spec fn index_wf(tags: Seq<(String, Vec<usize>)>, inner: Seq<Article>) -> bool {
    &&& keys_unique(tags)
    &&& entries_increasing(tags)
    &&& entries_nonempty(tags)
    &&& entries_below(tags, inner.len() as int)
    &&& index_exact_upto(tags, inner, inner.len() as int)
    &&& index_complete_upto(tags, inner, inner.len() as int)
}

/// Finds the entry keyed by a tag name.
fn find_key(tags: &Vec<(String, Vec<usize>)>, t: &String) -> (r: Option<usize>)
    ensures
        match r {
            Some(k) => (k as int) < tags@.len() && tags@[k as int].0@ == t@,
            None => !has_key(tags@, t@),
        },
{
    let mut k: usize = 0;
    while k < tags.len()
        invariant
            0 <= k <= tags@.len(),
            forall|k2: int| 0 <= k2 < k ==> tags@[k2].0@ != t@,
        decreases tags@.len() - k,
    {
        if tags[k].0.eq(t) {
            return Some(k);
        }
        k = k + 1;
    }
    proof {
        if has_key(tags@, t@) {
            let k2 = choose|k2: int| 0 <= k2 < tags@.len() && tags@[k2].0@ == t@;
            assert(false);
        }
    }
    None
}

/// Builds the tag index over the final document order, as `index_wf`
/// describes: one entry per tag name, listing in increasing order the
/// positions of exactly the documents carrying it.
pub fn build_tag_index(inner: &Vec<Article>) -> (tags: Vec<(String, Vec<usize>)>)
    ensures
        index_wf(tags@, inner@),
{
    let mut tags: Vec<(String, Vec<usize>)> = Vec::new();
    let n = inner.len();
    let mut d: usize = 0;
    while d < n
        invariant
            0 <= d <= n,
            n == inner@.len(),
            keys_unique(tags@),
            entries_increasing(tags@),
            entries_nonempty(tags@),
            entries_below(tags@, d as int),
            index_exact_upto(tags@, inner@, d as int),
            index_complete_upto(tags@, inner@, d as int),
        decreases n - d,
    {
        let tcount = inner[d].tags.len();
        let mut j: usize = 0;
        proof {
            assert(inner@[d as int]@.tags.take(0) =~= Seq::<Seq<char>>::empty());
        }
        while j < tcount
            invariant
                0 <= j <= tcount,
                0 <= d < n,
                n == inner@.len(),
                tcount == inner@[d as int]@.tags.len(),
                keys_unique(tags@),
                entries_increasing(tags@),
                entries_nonempty(tags@),
                entries_below(tags@, d as int + 1),
                index_exact_upto(tags@, inner@, d as int),
                index_complete_upto(tags@, inner@, d as int),
                forall|k: int|
                    0 <= k < tags@.len() ==> (#[trigger] tags@[k].1@.contains(d) <==> inner@[
                        d as int
                    ]@.tags.take(j as int).contains(tags@[k].0@)),
                forall|j2: int|
                    0 <= j2 < j ==> has_key(tags@, #[trigger] inner@[d as int]@.tags[j2]),
            decreases tcount - j,
        {
            let ghost tags0 = tags@;
            let ghost tagseq = inner@[d as int]@.tags;
            let t = &inner[d].tags[j];
            proof {
                assert(t@ == tagseq[j as int]);
                assert(tagseq.take(j as int + 1).drop_last() =~= tagseq.take(j as int));
                assert(tagseq.take(j as int + 1).last() == tagseq[j as int]);
                assert forall|x: Seq<char>|
                    tagseq.take(j as int + 1).contains(x) implies (tagseq.take(
                    j as int,
                ).contains(x) || x == tagseq[j as int]) by {
                    let tj1 = tagseq.take(j as int + 1);
                    let m = choose|m: int| 0 <= m < tj1.len() && tj1[m] == x;
                    if m < j {
                        assert(tagseq.take(j as int)[m] == x);
                    }
                }
                assert forall|x: Seq<char>|
                    tagseq.take(j as int).contains(x) implies tagseq.take(
                    j as int + 1,
                ).contains(x) by {
                    let tj0 = tagseq.take(j as int);
                    let m = choose|m: int| 0 <= m < tj0.len() && tj0[m] == x;
                    assert(tagseq.take(j as int + 1)[m] == x);
                }
                assert(tagseq.take(j as int + 1).contains(tagseq[j as int]));
            }
            match find_key(&tags, t) {
                Some(k) => {
                    let mut entry = tags.remove(k);
                    let ghost e0 = entry.1@;
                    let elen = entry.1.len();
                    if elen == 0 || entry.1[elen - 1] != d {
                        proof {
                            assert forall|m: int| 0 <= m < e0.len() implies e0[m] != d by {
                                if m < e0.len() - 1 {
                                    assert(e0[m] < e0[e0.len() - 1]);
                                    assert((e0[e0.len() - 1] as int) < d as int + 1);
                                }
                            }
                            if e0.contains(d) {
                                let m = choose|m: int| 0 <= m < e0.len() && e0[m] == d;
                                assert(false);
                            }
                        }
                        entry.1.push(d);
                        proof {
                            assert(entry.1@ =~= e0.push(d));
                        }
                    } else {
                        proof {
                            assert(e0[e0.len() - 1] == d);
                            assert(e0.contains(d));
                        }
                    }
                    tags.insert(k, entry);
                    proof {
                        assert(tags@ =~= tags0.update(k as int, (tags0[k as int].0, entry.1)));
                        assert(tags@[k as int].0@ == t@);
                        let newlist = tags@[k as int].1@;
                        assert(newlist == e0 || newlist == e0.push(d));
                        if newlist == e0 {
                            assert(newlist.contains(d));
                        } else {
                            assert(newlist[e0.len() as int] == d);
                            assert(newlist.contains(d));
                        }
                        assert(tags@[k as int].1@.contains(d));
                        assert forall|k2: int|
                            0 <= k2 < tags@.len() && k2 != k implies tags@[k2] == tags0[k2] by {}
                        assert(keys_unique(tags@));
                        assert forall|k2: int, m1: int, m2: int|
                            0 <= k2 < tags@.len() && 0 <= m1 < m2 < tags@[k2].1@.len() implies tags@[
                            k2].1@[m1] < tags@[k2].1@[m2] by {
                            if k2 == k && elen == 0 {
                            } else if k2 == k {
                                if m2 == tags@[k2].1@.len() - 1 && entry.1@.len() > e0.len() {
                                    assert(tags@[k2].1@[m1] == e0[m1]);
                                    if m1 < e0.len() - 1 {
                                        assert(e0[m1] < e0[e0.len() - 1]);
                                    }
                                    assert((tags@[k2].1@[m1] as int) < d as int + 1);
                                }
                            }
                        }
                        assert(entries_increasing(tags@));
                        assert(entries_below(tags@, d as int + 1));
                        assert(entries_nonempty(tags@));
                        assert forall|k2: int, d2: int|
                            0 <= k2 < tags@.len() && 0 <= d2 < d as int && d2 < inner@.len() implies (
                        #[trigger] tags@[k2].1@.contains(d2 as usize) <==> inner@[d2]@.tags.contains(
                            tags@[k2].0@,
                        )) by {
                            if k2 == k {
                                assert(d2 as usize != d);
                                if tags@[k2].1@.contains(d2 as usize) {
                                    let lst = tags@[k2].1@;
                                    let m = choose|m: int|
                                        0 <= m < lst.len() && lst[m] == d2 as usize;
                                    if newlist == e0 {
                                        assert(e0[m] == d2 as usize);
                                    } else if m < e0.len() {
                                        assert(e0[m] == d2 as usize);
                                    } else {
                                        assert(lst[m] == d);
                                        assert(false);
                                    }
                                    assert(e0.contains(d2 as usize));
                                    assert(tags0[k as int].1@.contains(d2 as usize));
                                }
                                if inner@[d2]@.tags.contains(tags@[k2].0@) {
                                    assert(tags0[k as int].1@.contains(d2 as usize));
                                    let m = choose|m: int|
                                        0 <= m < e0.len() && e0[m] == d2 as usize;
                                    assert(tags@[k2].1@[m] == d2 as usize);
                                }
                            } else {
                                assert(tags@[k2] == tags0[k2]);
                            }
                        }
                        assert(index_exact_upto(tags@, inner@, d as int));
                        assert(index_complete_upto(tags@, inner@, d as int));
                        assert forall|k2: int| 0 <= k2 < tags@.len() implies (
                        #[trigger] tags@[k2].1@.contains(d) <==> tagseq.take(
                            j as int + 1,
                        ).contains(tags@[k2].0@)) by {
                            if k2 == k {
                            } else {
                                assert(tags@[k2] == tags0[k2]);
                                if tagseq.take(j as int + 1).contains(tags@[k2].0@) {
                                    assert(tagseq.take(j as int).contains(tags@[k2].0@) || tags@[
                                    k2].0@ == tagseq[j as int]);
                                    if tags@[k2].0@ == tagseq[j as int] {
                                        assert(tags@[k2].0@ == tags@[k as int].0@);
                                        assert(false);
                                    }
                                }
                            }
                        }
                    }
                },
                None => {
                    let mut l: Vec<usize> = Vec::new();
                    l.push(d);
                    tags.push((t.clone(), l));
                    proof {
                        assert(tags@ =~= tags0.push(tags@[tags0.len() as int]));
                        assert(tags@[tags0.len() as int].0@ == t@);
                        assert(tags@[tags0.len() as int].1@ =~= seq![d]);
                        assert forall|k2: int|
                            0 <= k2 < tags0.len() implies tags@[k2] == tags0[k2] by {}
                        assert(keys_unique(tags@));
                        assert(entries_increasing(tags@));
                        assert(entries_below(tags@, d as int + 1));
                        assert(entries_nonempty(tags@));
                        assert forall|k2: int, d2: int|
                            0 <= k2 < tags@.len() && 0 <= d2 < d as int && d2 < inner@.len() implies (
                        #[trigger] tags@[k2].1@.contains(d2 as usize) <==> inner@[d2]@.tags.contains(
                            tags@[k2].0@,
                        )) by {
                            if k2 == tags0.len() {
                                if tags@[k2].1@.contains(d2 as usize) {
                                    let m = choose|m: int|
                                        0 <= m < tags@[k2].1@.len() && tags@[k2].1@[m]
                                            == d2 as usize;
                                    assert(false);
                                }
                                if inner@[d2]@.tags.contains(t@) {
                                    let j2 = choose|j2: int|
                                        0 <= j2 < inner@[d2]@.tags.len() && inner@[d2]@.tags[j2]
                                            == t@;
                                    assert(has_key(tags0, inner@[d2]@.tags[j2]));
                                    assert(false);
                                }
                            }
                        }
                        assert(index_exact_upto(tags@, inner@, d as int));
                        assert(index_complete_upto(tags@, inner@, d as int));
                        assert forall|k2: int| 0 <= k2 < tags@.len() implies (
                        #[trigger] tags@[k2].1@.contains(d) <==> tagseq.take(
                            j as int + 1,
                        ).contains(tags@[k2].0@)) by {
                            if k2 == tags0.len() {
                                assert(tags@[k2].1@[0] == d);
                                assert(tags@[k2].1@.contains(d));
                            } else {
                                assert(tags@[k2] == tags0[k2]);
                                if tagseq.take(j as int + 1).contains(tags@[k2].0@) {
                                    if tags@[k2].0@ == tagseq[j as int] {
                                        assert(has_key(tags0, t@));
                                        assert(false);
                                    }
                                }
                            }
                        }
                    }
                },
            }
            j = j + 1;
        }
        proof {
            assert(inner@[d as int]@.tags.take(tcount as int) =~= inner@[d as int]@.tags);
            assert forall|k: int, d2: int|
                0 <= k < tags@.len() && 0 <= d2 < d as int + 1 && d2 < inner@.len() implies (
            #[trigger] tags@[k].1@.contains(d2 as usize) <==> inner@[d2]@.tags.contains(
                tags@[k].0@,
            )) by {
                if d2 == d as int {
                    assert(tags@[k].1@.contains(d) <==> inner@[d as int]@.tags.take(
                        tcount as int,
                    ).contains(tags@[k].0@));
                }
            }
            assert(index_exact_upto(tags@, inner@, d as int + 1));
            assert forall|d2: int, j2: int|
                0 <= d2 < d as int + 1 && d2 < inner@.len() && 0 <= j2 < inner@[d2]@.tags.len()
                implies has_key(tags@, #[trigger] inner@[d2]@.tags[j2]) by {}
            assert(index_complete_upto(tags@, inner@, d as int + 1));
        }
        d = d + 1;
    }
    tags
}

/// All articles recursively found under the input root, in final render
/// order, with the tag index over that order.
#[derive(Debug)]
pub struct Articles {
    /// Tag name, positions in `inner` of the documents carrying it.
    pub tags: Vec<(String, Vec<usize>)>,
    pub inner: Vec<Article>,
}

impl Articles {
    /// The collection invariant: documents in descending path order, and the
    /// tag index exactly inverse to their tags.
    pub open spec fn wf(&self) -> bool {
        &&& sorted_desc(self.inner@)
        &&& index_wf(self.tags@, self.inner@)
    }

    /// Builds the collection from the scanned files: every file parsed (the
    /// first failure aborts the whole run with that file's error), the
    /// documents sorted by output path descending, and the tag index built
    /// over the final order.
    pub fn read(input: &str, files: Vec<(String, String)>) -> (r: Result<Articles, SiteError>)
        ensures
            match r {
                Ok(arts) => {
                    &&& arts.wf()
                    &&& arts.inner@.len() == files@.len()
                    &&& forall|i: int|
                        0 <= i < files@.len() ==> spec_article(
                            input@,
                            #[trigger] files@[i].0@,
                            files@[i].1@,
                        ) is Ok
                    &&& views_of(arts.inner@).to_multiset() == parsed_views(
                        input@,
                        files_view(files@),
                    ).to_multiset()
                },
                Err(e) => exists|i: int|
                    0 <= i < files@.len() && #[trigger] spec_article(
                        input@,
                        files@[i].0@,
                        files@[i].1@,
                    ) == Err::<ArticleV, SiteError>(e) && (forall|j: int|
                        0 <= j < i ==> spec_article(
                            input@,
                            #[trigger] files@[j].0@,
                            files@[j].1@,
                        ) is Ok),
            },
    {
        let mut parsed: Vec<Article> = Vec::new();
        let n = files.len();
        let mut i: usize = 0;
        while i < n
            invariant
                0 <= i <= n,
                n == files@.len(),
                parsed@.len() == i,
                forall|j: int|
                    0 <= j < i ==> spec_article(
                        input@,
                        #[trigger] files@[j].0@,
                        files@[j].1@,
                    ) is Ok,
                forall|j: int|
                    0 <= j < i ==> #[trigger] parsed@[j]@ == spec_article(
                        input@,
                        files@[j].0@,
                        files@[j].1@,
                    )->Ok_0,
            decreases n - i,
        {
            match Article::read(input, files[i].0.as_str(), files[i].1.as_str()) {
                Ok(a) => {
                    parsed.push(a);
                },
                Err(e) => {
                    proof {
                        assert(spec_article(input@, files@[i as int].0@, files@[i as int].1@)
                            == Err::<ArticleV, SiteError>(e));
                    }
                    return Err(e);
                },
            }
            i = i + 1;
        }
        proof {
            assert(views_of(parsed@) =~= parsed_views(input@, files_view(files@)));
        }
        let inner = sort_by_path_desc(parsed);
        proof {
            assert(inner@.len() == inner@.to_multiset().len());
        }
        let tags = build_tag_index(&inner);
        Ok(Articles { tags, inner })
    }
}

/// Descending path order, over the mathematical form of the documents.
pub open spec fn sorted_desc_v(s: Seq<ArticleV>) -> bool {
    forall|i: int, j: int| 0 <= i < j < s.len() ==> lex_le(s[j].path, s[i].path)
}

/// No repeated output path, over the mathematical form of the documents.
pub open spec fn distinct_paths_v(s: Seq<ArticleV>) -> bool {
    forall|i: int, j: int| 0 <= i < j < s.len() ==> s[i].path != s[j].path
}

/// A sorted sequence of articles is sorted in its mathematical form too.
pub proof fn lemma_sorted_views(s: Seq<Article>)
    requires
        sorted_desc(s),
    ensures
        sorted_desc_v(views_of(s)),
{
    assert forall|i: int, j: int| 0 <= i < j < views_of(s).len() implies lex_le(
        views_of(s)[j].path,
        views_of(s)[i].path,
    ) by {
        assert(views_of(s)[j] == s[j]@ && views_of(s)[i] == s[i]@);
        assert(lex_le(apath(s[j]), apath(s[i])));
    }
}

/// Deterministic ordering: two runs over the same documents — whatever order
/// the scan handed them over in — each sorted descending by output path,
/// with no path repeated, hold the documents in the same order: the
/// sequences are equal.
pub proof fn lemma_deterministic_order(a: Seq<ArticleV>, b: Seq<ArticleV>)
    requires
        a.to_multiset() == b.to_multiset(),
        sorted_desc_v(a),
        sorted_desc_v(b),
        distinct_paths_v(a),
    ensures
        a == b,
    decreases a.len(),
{
    broadcast use vstd::seq_lib::group_to_multiset_ensures;

    if a.len() == 0 {
        assert(a.to_multiset().len() == 0);
        assert(b.len() == b.to_multiset().len());
        assert(b.len() == 0);
        assert(a =~= b);
    } else {
        assert(a.len() == a.to_multiset().len());
        assert(b.len() == b.to_multiset().len());
        assert(b.len() == a.len());
        assert(a.contains(a[0]));
        assert(a.to_multiset().count(a[0]) > 0);
        assert(b.to_multiset().count(a[0]) > 0);
        assert(b.contains(a[0]));
        let jb = choose|j: int| 0 <= j < b.len() && b[j] == a[0];
        if jb != 0 {
            assert(b.contains(b[0]));
            assert(b.to_multiset().count(b[0]) > 0);
            assert(a.to_multiset().count(b[0]) > 0);
            assert(a.contains(b[0]));
            let ja = choose|j: int| 0 <= j < a.len() && a[j] == b[0];
            assert(lex_le(b[jb].path, b[0].path));
            assert(lex_le(a[0].path, b[0].path));
            if ja == 0 {
                assert(a[0] == b[0]);
            } else {
                assert(lex_le(a[ja].path, a[0].path));
                assert(lex_le(b[0].path, a[0].path));
                lemma_lex_antisym(a[0].path, b[0].path);
                assert(a[ja].path == b[0].path && b[0].path == a[0].path);
                assert(a[0].path != a[ja].path);
                assert(false);
            }
        }
        assert(a[0] == b[0]);
        let at = a.drop_first();
        let bt = b.drop_first();
        assert(a.remove(0).to_multiset() =~= a.to_multiset().remove(a[0]));
        assert(b.remove(0).to_multiset() =~= b.to_multiset().remove(b[0]));
        assert(at =~= a.remove(0));
        assert(bt =~= b.remove(0));
        assert(at.to_multiset() == bt.to_multiset());
        assert forall|i: int, j: int| 0 <= i < j < at.len() implies lex_le(
            at[j].path,
            at[i].path,
        ) by {
            assert(at[j] == a[j + 1] && at[i] == a[i + 1]);
        }
        assert forall|i: int, j: int| 0 <= i < j < bt.len() implies lex_le(
            bt[j].path,
            bt[i].path,
        ) by {
            assert(bt[j] == b[j + 1] && bt[i] == b[i + 1]);
        }
        assert forall|i: int, j: int| 0 <= i < j < at.len() implies at[i].path != at[j].path by {
            assert(at[j] == a[j + 1] && at[i] == a[i + 1]);
        }
        lemma_deterministic_order(at, bt);
        assert forall|i: int| 0 <= i < a.len() implies a[i] == b[i] by {
            if i > 0 {
                assert(a[i] == at[i - 1]);
                assert(b[i] == bt[i - 1]);
            }
        }
        assert(a =~= b);
    }
}

} // verus!
