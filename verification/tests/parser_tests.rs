use aibook::errors::SummaryError;
use aibook::parser::{
    clean_response, decode_summarize_reply, empty_result, parse_delimited, parse_structured,
    ChapterResult,
};

#[test]
fn delimited_keywords_then_narrative() {
    let r = parse_delimited("Keywords: a, b, c\n\nSome narrative text.");
    assert_eq!(r.keywords, vec!["a".to_string(), "b".to_string(), "c".to_string()]);
    assert_eq!(r.summary, "Some narrative text.");
    assert!(r.glossary.is_empty());
    assert!(r.references.is_empty());
    assert!(r.additional_resources.is_empty());
}

#[test]
fn delimited_administrative_section_is_dropped() {
    let r = parse_delimited("About the Author\n\nBio text.\n\nReal summary.");
    assert_eq!(r.summary, "Real summary.");
    assert!(r.keywords.is_empty());
    assert!(r.glossary.is_empty());
    assert!(r.references.is_empty());
    assert!(r.additional_resources.is_empty());
}

#[test]
fn delimited_routes_every_label() {
    let text = "Opening thoughts.\n\nGlossary:\nterm one\nterm two\n\nReferences:\nref one\n\nAdditional Resources:\nres one\n\nClosing thoughts.";
    let r = parse_delimited(text);
    assert_eq!(r.summary, "Opening thoughts.\n\nClosing thoughts.");
    assert_eq!(r.glossary, vec!["term one".to_string(), "term two".to_string()]);
    assert_eq!(r.references, vec!["ref one".to_string()]);
    assert_eq!(r.additional_resources, vec!["res one".to_string()]);
}

#[test]
fn delimited_citations_label_feeds_references() {
    let r = parse_delimited("Citations and References:\nalpha\nbeta");
    assert_eq!(r.references, vec!["alpha".to_string(), "beta".to_string()]);
    assert_eq!(r.summary, "");
}

#[test]
fn structured_reads_every_field() {
    let raw = "{\"summary\":\"S\",\"keywords\":[\"k1\",\"k2\"],\"glossary\":[\"g\"],\"references\":[\"r\"],\"additional_resources\":[\"a\"]}";
    let r = parse_structured(raw).unwrap();
    assert_eq!(r.summary, "S");
    assert_eq!(r.keywords, vec!["k1".to_string(), "k2".to_string()]);
    assert_eq!(r.glossary, vec!["g".to_string()]);
    assert_eq!(r.references, vec!["r".to_string()]);
    assert_eq!(r.additional_resources, vec!["a".to_string()]);
}

#[test]
fn structured_missing_fields_default_to_empty() {
    let r = parse_structured("{\"summary\":\"only\"}").unwrap();
    assert_eq!(r.summary, "only");
    assert!(r.keywords.is_empty());
    assert!(r.glossary.is_empty());
    assert!(r.references.is_empty());
    assert!(r.additional_resources.is_empty());
}

#[test]
fn structured_drops_non_string_list_entries() {
    let r = parse_structured("{\"keywords\":[\"a\",1,\"b\",null]}").unwrap();
    assert_eq!(r.keywords, vec!["a".to_string(), "b".to_string()]);
    assert_eq!(r.summary, "");
}

#[test]
fn structured_rejects_invalid_json() {
    let r = parse_structured("not json at all");
    assert_eq!(r.unwrap_err(), SummaryError::FatalParse);
}

#[test]
fn clean_strips_a_code_fence() {
    assert_eq!(clean_response("```json\n{\"a\":1}\n```"), "\n{\"a\":1}\n");
    assert_eq!(clean_response("  plain  "), "plain");
}

#[test]
fn clean_trims_unicode_whitespace_before_the_fence() {
    assert_eq!(clean_response("\u{a0}```json{}```\u{3000}"), "{}");
    assert_eq!(clean_response("\u{2028}text\u{205f}"), "text");
}

#[test]
fn merge_joins_narratives_and_concatenates_lists() {
    let mut acc = empty_result();
    let first = ChapterResult {
        summary: "First.".to_string(),
        keywords: vec!["k1".to_string()],
        glossary: vec![],
        references: vec!["r1".to_string()],
        additional_resources: vec![],
    };
    let second = ChapterResult {
        summary: "Second.".to_string(),
        keywords: vec!["k2".to_string()],
        glossary: vec!["g".to_string()],
        references: vec![],
        additional_resources: vec![],
    };
    acc.merge(&first);
    acc.merge(&second);
    assert_eq!(acc.summary, "First.\n\nSecond.");
    assert_eq!(acc.keywords, vec!["k1".to_string(), "k2".to_string()]);
    assert_eq!(acc.glossary, vec!["g".to_string()]);
    assert_eq!(acc.references, vec!["r1".to_string()]);
}

#[test]
fn summarize_reply_decodes_its_summary_field() {
    assert_eq!(decode_summarize_reply("{\"summary\":\"s\"}").unwrap(), "s");
    assert_eq!(
        decode_summarize_reply("{}").unwrap_err(),
        SummaryError::MalformedResponse
    );
    assert_eq!(
        decode_summarize_reply("garbage").unwrap_err(),
        SummaryError::MalformedResponse
    );
}
