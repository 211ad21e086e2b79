use aibook::errors::SummaryError;
use aibook::plan::{
    build_plan_prompt, build_section_prompt, plan_section_for, split_summary_plan, validate_plan,
};

#[test]
fn plan_splits_at_level_two_headings() {
    let plan = "Overview first.\n## One\nplan one\n## Two\nplan two\n";
    let sections = split_summary_plan(plan);
    assert_eq!(
        sections,
        vec!["##One\nplan one".to_string(), "##Two\nplan two".to_string()]
    );
}

#[test]
fn plan_without_headings_yields_no_sections() {
    assert_eq!(split_summary_plan("just prose"), Vec::<String>::new());
}

#[test]
fn missing_plan_sections_come_back_empty() {
    let plan = "## One\nfirst\n## Two\nsecond";
    let sections = split_summary_plan(plan);
    assert_eq!(sections.len(), 2);
    assert_eq!(plan_section_for(&sections, 0), "##One\nfirst");
    assert_eq!(plan_section_for(&sections, 1), "##Two\nsecond");
    assert_eq!(plan_section_for(&sections, 2), "");
}

#[test]
fn blank_plan_replies_are_fatal() {
    assert_eq!(validate_plan("").unwrap_err(), SummaryError::EmptyPlan);
    assert_eq!(validate_plan("  \n\t ").unwrap_err(), SummaryError::EmptyPlan);
    assert_eq!(validate_plan(" a plan ").unwrap(), " a plan ");
}

#[test]
fn unicode_whitespace_counts_as_blank() {
    assert_eq!(validate_plan("\u{a0}\u{2003}\u{3000}").unwrap_err(), SummaryError::EmptyPlan);
    assert_eq!(validate_plan("\u{a0}plan\u{a0}").unwrap(), "\u{a0}plan\u{a0}");
}

#[test]
fn plan_prompt_fills_language_and_toc() {
    let toc = vec!["Intro".to_string(), "Body".to_string()];
    let prompt = build_plan_prompt("Lang={{language}} TOC:{{toc}}.", "en", &toc);
    assert_eq!(prompt, "Lang=en TOC:Intro\nBody.");
}

#[test]
fn section_prompt_fills_every_placeholder() {
    let prompt = build_section_prompt(
        "L={{language}} D={{detail_level}} P={{plan}} T={{text}}",
        "en",
        "short",
        "##One",
        "chapter text",
    );
    assert_eq!(prompt, "L=en D=short P=##One T=chapter text");
}
