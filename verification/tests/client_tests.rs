use aibook::client::{
    bearer_token, decode_chat_response, describe_failure, encode_chat_request,
    encode_summarize_request, parse_u32_or, ChatMessage, RetryPolicy,
};
use aibook::errors::SummaryError;

#[test]
fn chat_request_is_exact_json() {
    let messages = vec![ChatMessage { role: "user".to_string(), content: "hi".to_string() }];
    let body = encode_chat_request("gpt", &messages, 70);
    assert_eq!(
        body,
        "{\"model\":\"gpt\",\"messages\":[{\"role\":\"user\",\"content\":\"hi\"}],\"temperature\":0.70}"
    );
}

#[test]
fn chat_request_escapes_and_round_trips_through_a_json_parser() {
    let messages = vec![
        ChatMessage { role: "user".to_string(), content: "say \"hi\"\nplease\t\\ok".to_string() },
        ChatMessage { role: "assistant".to_string(), content: "fine".to_string() },
    ];
    let body = encode_chat_request("m/1", &messages, 5);
    let v: serde_json::Value = serde_json::from_str(&body).unwrap();
    assert_eq!(v["model"], "m/1");
    assert_eq!(v["messages"][0]["content"], "say \"hi\"\nplease\t\\ok");
    assert_eq!(v["messages"][1]["role"], "assistant");
    assert_eq!(v["temperature"], 0.05);
}

#[test]
fn summarize_request_is_exact_json() {
    assert_eq!(
        encode_summarize_request("text", "en"),
        "{\"chapter\":\"text\",\"language\":\"en\"}"
    );
}

#[test]
fn successful_envelope_yields_the_first_choice() {
    let body = "{\"choices\":[{\"message\":{\"role\":\"assistant\",\"content\":\"answer\"}},{\"message\":{\"role\":\"assistant\",\"content\":\"other\"}}]}";
    assert_eq!(decode_chat_response(200, body).unwrap(), "answer");
}

#[test]
fn success_status_with_a_bad_body_is_malformed() {
    assert_eq!(
        decode_chat_response(200, "{\"choices\":[]}").unwrap_err(),
        SummaryError::MalformedResponse
    );
    assert_eq!(
        decode_chat_response(204, "not json").unwrap_err(),
        SummaryError::MalformedResponse
    );
}

#[test]
fn statuses_map_to_the_error_taxonomy() {
    assert_eq!(decode_chat_response(401, "").unwrap_err(), SummaryError::Auth);
    assert_eq!(decode_chat_response(403, "").unwrap_err(), SummaryError::Auth);
    assert_eq!(decode_chat_response(500, "").unwrap_err(), SummaryError::Transient);
    assert_eq!(decode_chat_response(429, "").unwrap_err(), SummaryError::Transient);
    assert_eq!(decode_chat_response(408, "").unwrap_err(), SummaryError::Transient);
    assert_eq!(decode_chat_response(404, "").unwrap_err(), SummaryError::MalformedResponse);
}

#[test]
fn bearer_header_prefixes_the_key() {
    assert_eq!(bearer_token("abc"), "Bearer abc");
}

#[test]
fn failures_are_described_with_status_and_body_verbatim() {
    assert_eq!(
        describe_failure(404, "{\"error\":\"no such model\"}"),
        "Request error: 404 - {\"error\":\"no such model\"}"
    );
    assert_eq!(describe_failure(500, ""), "Request error: 500 - ");
}

#[test]
fn retry_policy_defaults_to_three_attempts_in_five_minutes() {
    let policy = RetryPolicy::default();
    assert_eq!(policy.max_attempts, 3);
    assert_eq!(policy.max_elapsed_secs, 300);
}

#[test]
fn config_numbers_fall_back_on_anything_but_digits() {
    assert_eq!(parse_u32_or("3", 9), 3);
    assert_eq!(parse_u32_or("007", 9), 7);
    assert_eq!(parse_u32_or("", 9), 9);
    assert_eq!(parse_u32_or("3x", 9), 9);
    assert_eq!(parse_u32_or("-3", 9), 9);
    assert_eq!(parse_u32_or("99999999999999999999", 9), 9);
}
