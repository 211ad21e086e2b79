//! The summarizer: configuration, prompt conversations, and the handling
//! of section replies. The network call between building a conversation
//! and handling its reply happens outside the library.

use vstd::prelude::*;
use vstd::string::*;

use crate::chunker;
use crate::client::ChatMessage;
use crate::errors::SummaryError;
use crate::parser::{
    clean_response, cleaned_spec, json_ok, parse_structured, structured_model, ChapterResult,
};
use crate::plan::{build_plan_prompt, build_section_prompt, plan_prompt_spec, section_prompt_spec};
use crate::text::{chars_of, is_blank, str_views, trim_chars};

verus! {

/// The configuration of one summarization run: the credentials and model
/// for the completion service, the output language and the requested
/// detail level.
#[derive(Clone, Debug)]
pub struct Summarizer {
    pub api_key: String,
    pub model_name: String,
    pub output_language: String,
    pub detail_level: String,
    /// The sampling temperature in hundredths; `70` stands for `0.70`.
    pub temperature_hundredths: u32,
}

impl Summarizer {
    /// A summarizer with the given configuration and the default sampling
    /// temperature.
    pub fn new(
        api_key: String,
        model_name: String,
        output_language: String,
        detail_level: String,
    ) -> (r: Self)
        ensures
            r.api_key@ == api_key@,
            r.model_name@ == model_name@,
            r.output_language@ == output_language@,
            r.detail_level@ == detail_level@,
            r.temperature_hundredths == crate::DEFAULT_TEMPERATURE_HUNDREDTHS,
    {
        Summarizer {
            api_key,
            model_name,
            output_language,
            detail_level,
            temperature_hundredths: 70,
        }
    }

    /// The one-message conversation that requests the summary plan: the
    /// template with the output language and the table of contents filled
    /// in, spoken in the user role.
    pub fn plan_messages(&self, template: &str, toc: &Vec<String>) -> (r: Vec<ChatMessage>)
        ensures
            r@.len() == 1,
            r@[0].role@ == "user"@,
            r@[0].content@ == plan_prompt_spec(template@, self.output_language@, str_views(toc@)),
    {
        let prompt = build_plan_prompt(template, self.output_language.as_str(), toc);
        let mut out: Vec<ChatMessage> = Vec::new();
        out.push(ChatMessage { role: String::from_str("user"), content: prompt });
        out
    }

    /// The one-message conversation that requests one section's summary:
    /// the template with the output language, the detail level, the
    /// chapter's plan section and the section text filled in.
    pub fn section_messages(&self, template: &str, plan: &str, text: &str) -> (r: Vec<
        ChatMessage,
    >)
        ensures
            r@.len() == 1,
            r@[0].role@ == "user"@,
            r@[0].content@ == section_prompt_spec(
                template@,
                self.output_language@,
                self.detail_level@,
                plan@,
                text@,
            ),
    {
        let prompt = build_section_prompt(
            template,
            self.output_language.as_str(),
            self.detail_level.as_str(),
            plan,
            text,
        );
        let mut out: Vec<ChatMessage> = Vec::new();
        out.push(ChatMessage { role: String::from_str("user"), content: prompt });
        out
    }

    /// Handles one section's reply under the strict-JSON strategy: cleans
    /// it, rejects a blank reply as a malformed response — the transport
    /// succeeded, but there is nothing to decode, and the section retry
    /// budget absorbs it — and treats any non-JSON remainder as a schema
    /// violation, fatal to the run.
    pub fn handle_section_response(&self, response: &str) -> (r: Result<
        ChapterResult,
        SummaryError,
    >)
        ensures
            is_blank(cleaned_spec(response@)) ==> r == Result::<
                ChapterResult,
                SummaryError,
            >::Err(SummaryError::MalformedResponse),
            !is_blank(cleaned_spec(response@)) && json_ok(cleaned_spec(response@)) ==> r is Ok
                && r->Ok_0@ == structured_model(cleaned_spec(response@)),
            !is_blank(cleaned_spec(response@)) && !json_ok(cleaned_spec(response@)) ==> r
                == Result::<ChapterResult, SummaryError>::Err(SummaryError::FatalParse),
    {
        let cleaned = clean_response(response);
        let cleaned_chars = chars_of(cleaned.as_str());
        let trimmed = trim_chars(&cleaned_chars);
        if trimmed.len() == 0 {
            return Err(SummaryError::MalformedResponse);
        }
        parse_structured(cleaned.as_str())
    }

    /// Splits chapter text into sections whose encoded length does not
    /// exceed `max_tokens`, with the fixed tokenizer the chunker uses.
    pub fn split_text_by_tokens(&self, text: &str, max_tokens: usize) -> (r: Result<
        Vec<String>,
        SummaryError,
    >)
        requires
            max_tokens >= 1,
        ensures
            chunker::sections_spec(text@, max_tokens as nat) is Some <==> r is Ok,
            r is Ok ==> Some(r->Ok_0@.map_values(|s: String| s@)) == chunker::sections_spec(
                text@,
                max_tokens as nat,
            ),
            r is Ok ==> r->Ok_0@.map_values(|s: String| s@).flatten() == text@,
            r is Err ==> r->Err_0 == SummaryError::Encoding,
    {
        chunker::split_text_by_tokens(text, max_tokens)
    }
}

} // verus!
