use aibook::errors::SummaryError;
use aibook::summarizer::Summarizer;

fn summarizer() -> Summarizer {
    Summarizer::new(
        "secret".to_string(),
        "gpt".to_string(),
        "en".to_string(),
        "medium".to_string(),
    )
}

#[test]
fn new_keeps_the_configuration_and_default_temperature() {
    let s = summarizer();
    assert_eq!(s.api_key, "secret");
    assert_eq!(s.model_name, "gpt");
    assert_eq!(s.output_language, "en");
    assert_eq!(s.detail_level, "medium");
    assert_eq!(s.temperature_hundredths, 70);
}

#[test]
fn plan_conversation_is_one_user_turn_with_the_filled_template() {
    let s = summarizer();
    let toc = vec!["One".to_string(), "Two".to_string()];
    let messages = s.plan_messages("Plan in {{language}} for:\n{{toc}}", &toc);
    assert_eq!(messages.len(), 1);
    assert_eq!(messages[0].role, "user");
    assert_eq!(messages[0].content, "Plan in en for:\nOne\nTwo");
}

#[test]
fn section_conversation_fills_every_placeholder() {
    let s = summarizer();
    let messages =
        s.section_messages("{{language}}|{{detail_level}}|{{plan}}|{{text}}", "##P", "body");
    assert_eq!(messages.len(), 1);
    assert_eq!(messages[0].role, "user");
    assert_eq!(messages[0].content, "en|medium|##P|body");
}

#[test]
fn section_reply_parses_after_fence_cleaning() {
    let s = summarizer();
    let parsed = s
        .handle_section_response("```json\n{\"summary\":\"S\",\"keywords\":[\"k\"]}\n```")
        .unwrap();
    assert_eq!(parsed.summary, "S");
    assert_eq!(parsed.keywords, vec!["k".to_string()]);
}

#[test]
fn blank_section_replies_are_retryable_malformed_responses() {
    let s = summarizer();
    assert_eq!(
        s.handle_section_response("   ").unwrap_err(),
        SummaryError::MalformedResponse
    );
    assert_eq!(
        s.handle_section_response("```json```").unwrap_err(),
        SummaryError::MalformedResponse
    );
}

#[test]
fn non_json_section_replies_abort_the_run() {
    let s = summarizer();
    assert_eq!(
        s.handle_section_response("I could not summarize this.").unwrap_err(),
        SummaryError::FatalParse
    );
}
