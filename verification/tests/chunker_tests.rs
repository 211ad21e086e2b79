use aibook::summarizer::Summarizer;

fn summarizer() -> Summarizer {
    Summarizer::new(
        "key".to_string(),
        "model".to_string(),
        "en".to_string(),
        "medium".to_string(),
    )
}

#[test]
fn empty_text_yields_no_sections() {
    let s = summarizer();
    let sections = s.split_text_by_tokens("", 5).unwrap();
    assert_eq!(sections.len(), 0);
}

#[test]
fn short_text_yields_one_section_equal_to_input() {
    let s = summarizer();
    let sections = s.split_text_by_tokens("hello world", 100).unwrap();
    assert_eq!(sections, vec!["hello world".to_string()]);
}

#[test]
fn sections_rejoin_to_the_original_text() {
    let s = summarizer();
    let text = "The quick brown fox jumps over the lazy dog. ".repeat(12);
    let sections = s.split_text_by_tokens(&text, 7).unwrap();
    assert!(sections.len() > 1);
    let rejoined: String = sections.concat();
    assert_eq!(rejoined, text);
}

#[test]
fn each_section_stays_within_the_token_bound() {
    let s = summarizer();
    let text = "Numbers 1 2 3 4 5 6 7 8 and words mingle here, again and again. ".repeat(9);
    let max = 6usize;
    let sections = s.split_text_by_tokens(&text, max).unwrap();
    let bpe = tiktoken_rs::cl100k_base().unwrap();
    let total = bpe.encode_with_special_tokens(&text).len();
    let expected = (total + max - 1) / max;
    assert_eq!(sections.len(), expected);
    let rejoined: String = sections.concat();
    assert_eq!(rejoined, text);
}

#[test]
fn splitting_twice_gives_the_same_sections() {
    let s = summarizer();
    let text = "Deterministic splitting matters for resumable runs. ".repeat(8);
    let first = s.split_text_by_tokens(&text, 5).unwrap();
    let second = s.split_text_by_tokens(&text, 5).unwrap();
    assert_eq!(first, second);
}
