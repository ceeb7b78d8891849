use sitegen::SiteError;
use sitegen::article::Article;

fn doc(meta: &str, body: &str) -> String {
    format!("{}\n\n{}", meta, body)
}

#[test]
fn parses_a_simple_document() {
    let content = doc(
        "(\"Hello\", \"2023-01-01\", [\"intro\"], \"en\")",
        "# Hi\n\nWorld.",
    );
    let a = Article::read("input", "input/post1.md", &content).unwrap();
    assert_eq!(a.title, "Hello");
    assert_eq!(a.lang, "en");
    assert_eq!(a.tags, vec!["intro".to_string()]);
    assert_eq!(a.path, "post1.html");
    assert!(a.html.contains("<h1>Hi</h1>"));
    assert!(a.html.contains("<p>World.</p>"));
    assert_eq!(a.desc, "World....");
}

#[test]
fn localizes_the_date_for_english() {
    let content = doc("(\"T\", \"2023-01-01\", [], \"en\")", "Body text.");
    let a = Article::read("input", "input/a.md", &content).unwrap();
    assert_eq!(a.date, "January 1, 2023");
}

#[test]
fn localizes_the_date_for_german() {
    let content = doc("(\"T\", \"2023-06-01\", [], \"de\")", "Body text.");
    let a = Article::read("input", "input/a.md", &content).unwrap();
    assert_eq!(a.date, "1. Juni 2023");
}

#[test]
fn derives_nested_output_paths() {
    let content = doc("(\"T\", \"2023-01-01\", [], \"en\")", "Body.");
    let a = Article::read("input", "input/a/b/c.md", &content).unwrap();
    assert_eq!(a.path, "a/b/c.html");
}

#[test]
fn accepts_an_input_root_with_trailing_slash() {
    let content = doc("(\"T\", \"2023-01-01\", [], \"en\")", "Body.");
    let a = Article::read("input/", "input/a.md", &content).unwrap();
    assert_eq!(a.path, "a.html");
}

#[test]
fn rejects_a_remainder_that_begins_with_a_separator() {
    let content = doc("(\"T\", \"2023-01-01\", [], \"en\")", "Body.");
    let e = Article::read("input", "input//a.md", &content).unwrap_err();
    assert_eq!(e, SiteError::PathResolutionError);
}

#[test]
fn rejects_a_path_outside_the_input_root() {
    let content = doc("(\"T\", \"2023-01-01\", [], \"en\")", "Body.");
    let e = Article::read("input", "elsewhere/a.md", &content).unwrap_err();
    assert_eq!(e, SiteError::PathResolutionError);
}

#[test]
fn rejects_a_document_without_a_blank_line() {
    let content = "(\"T\", \"2023-01-01\", [], \"en\") body on the same line";
    let e = Article::read("input", "input/a.md", content).unwrap_err();
    assert_eq!(e, SiteError::MalformedDocument);
}

#[test]
fn rejects_malformed_metadata() {
    let content = doc("(\"T\", \"2023-01-01\", [], \"en\"", "Body.");
    let e = Article::read("input", "input/a.md", &content).unwrap_err();
    assert_eq!(e, SiteError::InvalidMetadata);
    let content = doc("(\"T\", \"2023-01-01\", [], \"en\") extra", "Body.");
    let e = Article::read("input", "input/a.md", &content).unwrap_err();
    assert_eq!(e, SiteError::InvalidMetadata);
}

#[test]
fn unescapes_quotes_and_backslashes_in_strings() {
    let content = doc(
        "(\"He said \\\"hi\\\" \\\\ bye\", \"2023-01-01\", [], \"en\")",
        "Body.",
    );
    let a = Article::read("input", "input/a.md", &content).unwrap();
    assert_eq!(a.title, "He said \"hi\" \\ bye");
}

#[test]
fn rejects_month_thirteen() {
    let content = doc("(\"T\", \"2023-13-01\", [], \"en\")", "Body.");
    let e = Article::read("input", "input/a.md", &content).unwrap_err();
    assert_eq!(e, SiteError::InvalidDate);
}

#[test]
fn rejects_february_thirtieth() {
    let content = doc("(\"T\", \"2023-02-30\", [], \"en\")", "Body.");
    let e = Article::read("input", "input/a.md", &content).unwrap_err();
    assert_eq!(e, SiteError::InvalidDate);
}

#[test]
fn observes_leap_years() {
    let ok = doc("(\"T\", \"2024-02-29\", [], \"en\")", "Body.");
    assert!(Article::read("input", "input/a.md", &ok).is_ok());
    let ok = doc("(\"T\", \"2000-02-29\", [], \"en\")", "Body.");
    assert!(Article::read("input", "input/a.md", &ok).is_ok());
    let bad = doc("(\"T\", \"2023-02-29\", [], \"en\")", "Body.");
    assert_eq!(
        Article::read("input", "input/a.md", &bad).unwrap_err(),
        SiteError::InvalidDate
    );
    let bad = doc("(\"T\", \"2100-02-29\", [], \"en\")", "Body.");
    assert_eq!(
        Article::read("input", "input/a.md", &bad).unwrap_err(),
        SiteError::InvalidDate
    );
}

#[test]
fn rejects_dates_not_in_four_two_two_form() {
    let content = doc("(\"T\", \"2023-1-1\", [], \"en\")", "Body.");
    let e = Article::read("input", "input/a.md", &content).unwrap_err();
    assert_eq!(e, SiteError::InvalidDate);
}

#[test]
fn rejects_an_unresolvable_locale() {
    let content = doc("(\"T\", \"2023-01-01\", [], \"not a locale!!\")", "Body.");
    let e = Article::read("input", "input/a.md", &content).unwrap_err();
    assert_eq!(e, SiteError::InvalidLocale);
}

#[test]
fn removes_duplicate_tags_keeping_first_occurrences() {
    let content = doc(
        "(\"T\", \"2023-01-01\", [\"a\", \"b\", \"a\"], \"en\")",
        "Body.",
    );
    let a = Article::read("input", "input/a.md", &content).unwrap();
    assert_eq!(a.tags, vec!["a".to_string(), "b".to_string()]);
}

#[test]
fn collects_heading_sections_with_slugs() {
    let content = doc(
        "(\"T\", \"2023-01-01\", [], \"en\")",
        "## Sec One\n\ntext\n\n### Deep Down Under\n\nmore",
    );
    let a = Article::read("input", "input/a.md", &content).unwrap();
    assert_eq!(a.secs.len(), 2);
    assert_eq!(a.secs[0].value, "Sec One");
    assert_eq!(a.secs[0].href, "sec_one");
    assert_eq!(a.secs[0].level, '2');
    assert_eq!(a.secs[1].value, "Deep Down Under");
    assert_eq!(a.secs[1].href, "deep_down_under");
    assert_eq!(a.secs[1].level, '3');
}

#[test]
fn top_level_headings_yield_no_sections() {
    let content = doc("(\"T\", \"2023-01-01\", [], \"en\")", "# Top\n\ntext");
    let a = Article::read("input", "input/a.md", &content).unwrap();
    assert!(a.secs.is_empty());
}

#[test]
fn summary_is_empty_without_a_paragraph() {
    let content = doc("(\"T\", \"2023-01-01\", [], \"en\")", "## Only A Heading");
    let a = Article::read("input", "input/a.md", &content).unwrap();
    assert_eq!(a.desc, "");
}

#[test]
fn summary_cuts_long_paragraphs_at_three_hundred_characters() {
    let long = "x".repeat(400);
    let content = doc("(\"T\", \"2023-01-01\", [], \"en\")", &long);
    let a = Article::read("input", "input/a.md", &content).unwrap();
    assert_eq!(a.desc.len(), 303);
    assert_eq!(&a.desc[..300], &long[..300]);
    assert!(a.desc.ends_with("..."));
}

#[test]
fn summary_takes_the_first_paragraph_only() {
    let content = doc(
        "(\"T\", \"2023-01-01\", [], \"en\")",
        "First paragraph here.\n\nSecond paragraph there.",
    );
    let a = Article::read("input", "input/a.md", &content).unwrap();
    assert_eq!(a.desc, "First paragraph here....");
}

#[test]
fn rejects_a_dotdot_segment_in_the_remainder() {
    let content = doc("(\"T\", \"2023-01-01\", [], \"en\")", "Body.");
    let e = Article::read("input", "input/../x.md", &content).unwrap_err();
    assert_eq!(e, SiteError::PathResolutionError);
}

#[test]
fn a_raw_script_fragment_is_screened_out_not_parsed() {
    let content = doc("(\"T\", \"2023-01-01\", [], \"en\")", "<script>>\n");
    let a = Article::read("input", "input/a.md", &content).unwrap();
    assert_eq!(a.desc, "");
    assert!(a.secs.is_empty());
}

#[test]
fn a_short_comment_fragment_is_screened_out_not_parsed() {
    let content = doc("(\"T\", \"2023-01-01\", [], \"en\")", "<!-->\n");
    let a = Article::read("input", "input/a.md", &content).unwrap();
    assert_eq!(a.desc, "");
    assert!(a.secs.is_empty());
}

#[test]
fn an_xml_declaration_fragment_is_screened_out_not_parsed() {
    let content = doc("(\"T\", \"2023-01-01\", [], \"en\")", "<?>\n");
    let a = Article::read("input", "input/a.md", &content).unwrap();
    assert_eq!(a.desc, "");
    assert!(a.secs.is_empty());
}

#[test]
fn ordinary_markup_with_attributes_passes_the_screen() {
    let content = doc(
        "(\"T\", \"2023-01-01\", [], \"en\")",
        "A [link](http://example.org/x) here.",
    );
    let a = Article::read("input", "input/a.md", &content).unwrap();
    assert_eq!(a.desc, "A link here....");
}

#[test]
fn an_ordinary_html_comment_passes_the_screen() {
    let content = doc(
        "(\"T\", \"2023-01-01\", [], \"en\")",
        "<!-- a note -->\n\nPlain words.",
    );
    let a = Article::read("input", "input/a.md", &content).unwrap();
    assert_eq!(a.desc, "Plain words....");
}

#[test]
fn summary_flattens_inline_markup() {
    let content = doc(
        "(\"T\", \"2023-01-01\", [], \"en\")",
        "Some *emphatic* and `coded` words.",
    );
    let a = Article::read("input", "input/a.md", &content).unwrap();
    assert_eq!(a.desc, "Some emphatic and coded words....");
}
