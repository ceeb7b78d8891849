use sitegen::SiteError;
use sitegen::collection::Articles;
use sitegen::render::{Page, plan_pages};

fn post1() -> (String, String) {
    (
        "input/post1.md".to_string(),
        "(\"Hello\", \"2023-01-01\", [\"intro\"], \"en\")\n\n# Hi\n\nWorld.".to_string(),
    )
}

fn post2() -> (String, String) {
    (
        "input/post2.md".to_string(),
        "(\"Again\", \"2023-06-01\", [\"intro\", \"misc\"], \"en\")\n\nMore words.".to_string(),
    )
}

#[test]
fn builds_the_collection_in_descending_path_order() {
    let arts = Articles::read("input", vec![post1(), post2()]).unwrap();
    assert_eq!(arts.inner.len(), 2);
    assert_eq!(arts.inner[0].path, "post2.html");
    assert_eq!(arts.inner[1].path, "post1.html");
}

#[test]
fn builds_the_tag_index_over_the_final_order() {
    let arts = Articles::read("input", vec![post1(), post2()]).unwrap();
    assert_eq!(arts.tags.len(), 2);
    let intro = arts.tags.iter().find(|t| t.0 == "intro").unwrap();
    let misc = arts.tags.iter().find(|t| t.0 == "misc").unwrap();
    assert_eq!(intro.1, vec![0, 1]);
    assert_eq!(misc.1, vec![0]);
}

#[test]
fn scan_order_does_not_change_the_result() {
    let a = Articles::read("input", vec![post1(), post2()]).unwrap();
    let b = Articles::read("input", vec![post2(), post1()]).unwrap();
    assert_eq!(a.inner.len(), b.inner.len());
    for i in 0..a.inner.len() {
        assert_eq!(a.inner[i].path, b.inner[i].path);
        assert_eq!(a.inner[i].title, b.inner[i].title);
    }
}

#[test]
fn one_bad_document_aborts_the_whole_run() {
    let bad = (
        "input/broken.md".to_string(),
        "(\"B\", \"2023-01-01\", [], \"en\") no boundary here".to_string(),
    );
    let e = Articles::read("input", vec![post1(), bad]).unwrap_err();
    assert_eq!(e, SiteError::MalformedDocument);
}

#[test]
fn the_first_failure_wins() {
    let bad_date = (
        "input/a.md".to_string(),
        "(\"A\", \"2023-99-01\", [], \"en\")\n\nBody.".to_string(),
    );
    let bad_meta = ("input/b.md".to_string(), "oops\n\nBody.".to_string());
    let e = Articles::read("input", vec![bad_date, bad_meta]).unwrap_err();
    assert_eq!(e, SiteError::InvalidDate);
}

#[test]
fn plans_tag_pages_then_index_then_documents() {
    let arts = Articles::read("input", vec![post1(), post2()]).unwrap();
    let plan = plan_pages(&arts);
    assert_eq!(plan.len(), arts.tags.len() + 1 + arts.inner.len());
    for (k, tag) in arts.tags.iter().enumerate() {
        match &plan[k] {
            Page::Tag { name, path, members } => {
                assert_eq!(name, &tag.0);
                assert_eq!(path, &format!("tag/{}.html", tag.0));
                assert_eq!(members, &tag.1);
            }
            other => panic!("expected a tag page, got {:?}", other),
        }
    }
    match &plan[arts.tags.len()] {
        Page::Index { path } => assert_eq!(path, "index.html"),
        other => panic!("expected the index page, got {:?}", other),
    }
    for i in 0..arts.inner.len() {
        match &plan[arts.tags.len() + 1 + i] {
            Page::Doc { position, path } => {
                assert_eq!(*position, i);
                assert_eq!(path, &arts.inner[i].path);
            }
            other => panic!("expected a document page, got {:?}", other),
        }
    }
}

#[test]
fn the_document_page_path_mirrors_the_source_tree() {
    let nested = (
        "input/a/b/c.md".to_string(),
        "(\"Deep\", \"2023-01-01\", [], \"en\")\n\nBody.".to_string(),
    );
    let arts = Articles::read("input", vec![nested]).unwrap();
    let plan = plan_pages(&arts);
    assert!(plan.iter().any(|p| matches!(
        p,
        Page::Doc { path, .. } if path == "a/b/c.html"
    )));
}

#[test]
fn planning_the_same_collection_twice_gives_the_same_plan() {
    let arts = Articles::read("input", vec![post1(), post2()]).unwrap();
    let first = plan_pages(&arts);
    let second = plan_pages(&arts);
    assert_eq!(first, second);
}

#[test]
fn a_collection_without_tags_plans_no_tag_pages() {
    let lone = (
        "input/only.md".to_string(),
        "(\"Only\", \"2023-01-01\", [], \"en\")\n\nBody.".to_string(),
    );
    let arts = Articles::read("input", vec![lone]).unwrap();
    assert!(arts.tags.is_empty());
    let plan = plan_pages(&arts);
    assert_eq!(plan.len(), 2);
}
