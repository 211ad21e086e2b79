//! The summary plan: prompt construction, validation of the model's plan
//! reply, and the split of the plan into per-chapter sections.

use vstd::prelude::*;
use vstd::string::*;

use crate::errors::SummaryError;
use crate::text::{
    chars_of, char_views, extend_chars, is_blank, join_chars, join_with, replace_all_chars,
    replace_all_spec, split_on, split_on_chars, string_of, str_views, strs_to_char_vecs,
    trim_chars, trim_spec,
};

verus! {

/// The per-chapter sections of a plan: the pieces after each level-2
/// heading marker, each trimmed and with the marker restored. A plan
/// without headings yields no sections.
pub open spec fn plan_sections_spec(plan: Seq<char>) -> Seq<Seq<char>> {
    split_on(plan, "##"@).drop_first().map_values(|s: Seq<char>| "##"@ + trim_spec(s))
}

/// Splits a generated plan into its per-chapter sections at the level-2
/// heading markers.
pub fn split_summary_plan(plan: &str) -> (r: Vec<String>)
    ensures
        str_views(r@) == plan_sections_spec(plan@),
{
    let cs = chars_of(plan);
    let pat = chars_of("##");
    let pieces = split_on_chars(&cs, &pat);
    let ghost spec_pieces = split_on(plan@, "##"@);
    let mut out: Vec<String> = Vec::new();
    let mut k: usize = 1;
    while k < pieces.len()
        invariant
            char_views(pieces@) == spec_pieces,
            1 <= k <= pieces@.len() || (pieces@.len() == 0 && k == 1),
            out@.len() == k - 1,
            forall|j: int| 0 <= j < k - 1 ==> (#[trigger] out@[j])@ == "##"@ + trim_spec(
                spec_pieces[j + 1],
            ),
        decreases pieces@.len() - k,
    {
        assert(pieces@[k as int]@ == spec_pieces[k as int]);
        let trimmed = trim_chars(&pieces[k]);
        let mut piece = chars_of("##");
        extend_chars(&mut piece, &trimmed);
        out.push(string_of(&piece));
        k = k + 1;
    }
    assert(str_views(out@) =~~= plan_sections_spec(plan@));
    out
}

/// The plan section for a chapter: the section at the chapter's index, or
/// an empty one when the plan has fewer sections than the document has
/// chapters. Summarization proceeds either way.
pub fn plan_section_for(sections: &Vec<String>, index: usize) -> (r: String)
    ensures
        index < sections@.len() ==> r@ == sections@[index as int]@,
        index >= sections@.len() ==> r@ == Seq::<char>::empty(),
{
    if index < sections.len() {
        sections[index].clone()
    } else {
        String::new()
    }
}

/// Accepts a plan reply unless it is blank or whitespace-only, which is
/// fatal: without a plan the chapter work has no grounding.
pub fn validate_plan(response: &str) -> (r: Result<String, SummaryError>)
    ensures
        r is Ok <==> !is_blank(response@),
        r is Ok ==> r->Ok_0@ == response@,
        r is Err ==> r->Err_0 == SummaryError::EmptyPlan,
{
    let cs = chars_of(response);
    let trimmed = trim_chars(&cs);
    if trimmed.len() == 0 {
        Err(SummaryError::EmptyPlan)
    } else {
        Ok(String::from_str(response))
    }
}

/// The plan prompt: the template with the output language and the
/// newline-joined table of contents filled in.
pub open spec fn plan_prompt_spec(template: Seq<char>, language: Seq<char>, toc: Seq<Seq<char>>) -> Seq<
    char,
> {
    replace_all_spec(
        replace_all_spec(template, "{{language}}"@, language),
        "{{toc}}"@,
        join_with(toc, "\n"@),
    )
}

/// Builds the plan prompt from a template by filling in the output
/// language and the table of contents.
pub fn build_plan_prompt(template: &str, language: &str, toc: &Vec<String>) -> (r: String)
    ensures
        r@ == plan_prompt_spec(template@, language@, str_views(toc@)),
{
    let toc_vecs = strs_to_char_vecs(toc);
    let nl = chars_of("\n");
    let toc_text = join_chars(&toc_vecs, &nl);
    let tpl = chars_of(template);
    let lang = chars_of(language);
    let pat1 = chars_of("{{language}}");
    let step1 = replace_all_chars(&tpl, &pat1, &lang);
    let pat2 = chars_of("{{toc}}");
    let step2 = replace_all_chars(&step1, &pat2, &toc_text);
    string_of(&step2)
}

/// The section prompt: the template with the output language, the detail
/// level, the chapter's plan section and the section text filled in.
pub open spec fn section_prompt_spec(
    template: Seq<char>,
    language: Seq<char>,
    detail_level: Seq<char>,
    plan: Seq<char>,
    text: Seq<char>,
) -> Seq<char> {
    replace_all_spec(
        replace_all_spec(
            replace_all_spec(
                replace_all_spec(template, "{{language}}"@, language),
                "{{detail_level}}"@,
                detail_level,
            ),
            "{{plan}}"@,
            plan,
        ),
        "{{text}}"@,
        text,
    )
}

/// Builds the prompt for one section of a chapter from a template by
/// filling in the output language, the detail level, the chapter's plan
/// section and the section text.
pub fn build_section_prompt(
    template: &str,
    language: &str,
    detail_level: &str,
    plan: &str,
    text: &str,
) -> (r: String)
    ensures
        r@ == section_prompt_spec(template@, language@, detail_level@, plan@, text@),
{
    let tpl = chars_of(template);
    let lang = chars_of(language);
    let detail = chars_of(detail_level);
    let plan_cs = chars_of(plan);
    let text_cs = chars_of(text);
    let pat1 = chars_of("{{language}}");
    let step1 = replace_all_chars(&tpl, &pat1, &lang);
    let pat2 = chars_of("{{detail_level}}");
    let step2 = replace_all_chars(&step1, &pat2, &detail);
    let pat3 = chars_of("{{plan}}");
    let step3 = replace_all_chars(&step2, &pat3, &plan_cs);
    let pat4 = chars_of("{{text}}");
    let step4 = replace_all_chars(&step3, &pat4, &text_cs);
    string_of(&step4)
}

} // verus!
