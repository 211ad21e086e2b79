use aibook::output::{
    format_additional_resources, format_glossary, format_references, format_section, format_title,
    highlight_keywords,
};

#[test]
fn sections_render_by_format() {
    assert_eq!(format_section("T", "body", "markdown"), "## T\n\nbody\n");
    assert_eq!(format_section("T", "body", "html"), "<h2>T</h2>\n\nbody\n");
    assert_eq!(format_section("T", "body", "plain"), "body");
}

#[test]
fn titles_render_by_format() {
    assert_eq!(format_title("Book", "markdown"), "# Book\n\n");
    assert_eq!(format_title("Book", "html"), "<h1>Book</h1>\n\n");
    assert_eq!(format_title("Book", "other"), "Book");
}

#[test]
fn empty_entry_lists_render_as_nothing() {
    assert_eq!(format_glossary(&vec![], "markdown"), "");
    assert_eq!(format_references(&vec![], "html"), "");
    assert_eq!(format_additional_resources(&vec![], "plain"), "");
}

#[test]
fn glossary_renders_with_blank_lines_between_entries() {
    let entries = vec!["a: first".to_string(), "b: second".to_string()];
    assert_eq!(
        format_glossary(&entries, "markdown"),
        "# Glossary\n\na: first\n\nb: second\n"
    );
    assert_eq!(
        format_glossary(&entries, "html"),
        "<h1>Glossary</h1>\n\n<p>a: first</p>\n<p>b: second</p>\n"
    );
    assert_eq!(format_glossary(&entries, "plain"), "a: first\n\nb: second");
}

#[test]
fn references_and_resources_render_line_by_line() {
    let entries = vec!["one".to_string(), "two".to_string()];
    assert_eq!(
        format_references(&entries, "markdown"),
        "# References\n\none\ntwo\n"
    );
    assert_eq!(
        format_additional_resources(&entries, "markdown"),
        "# Additional Resources\n\none\ntwo\n"
    );
    assert_eq!(
        format_additional_resources(&entries, "html"),
        "<h1>Additional Resources</h1>\n\n<p>one</p>\n<p>two</p>\n"
    );
}

#[test]
fn keywords_are_set_in_bold_everywhere_they_occur() {
    let r = highlight_keywords("the cat sat on the cat mat", &vec!["cat".to_string()]).unwrap();
    assert_eq!(r, "the **cat** sat on the **cat** mat");
}

#[test]
fn highlighting_applies_keywords_in_order_and_skips_empty_ones() {
    let kws = vec!["".to_string(), "b".to_string()];
    let r = highlight_keywords("a b c", &kws).unwrap();
    assert_eq!(r, "a **b** c");
    let none: Vec<String> = vec![];
    assert_eq!(highlight_keywords("text", &none).unwrap(), "text");
}

#[test]
fn highlighting_treats_keywords_literally() {
    let r = highlight_keywords("cost is $1.50 today", &vec!["$1.50".to_string()]).unwrap();
    assert_eq!(r, "cost is **$1.50** today");
}
