//! Rendering of summary pieces into Markdown or HTML text.

use vstd::prelude::*;
use vstd::string::*;

use crate::text::{
    chars_of, char_views, extend_chars, join_chars, join_with, replace_all_spec, string_of, str_eq,
    str_views,
};

verus! {

broadcast use vstd::string::group_string_axioms;

/// Each entry wrapped between `open_tag` and `close_tag`.
pub open spec fn wrapped_views(es: Seq<Seq<char>>, open_tag: Seq<char>, close_tag: Seq<char>) -> Seq<
    Seq<char>,
> {
    es.map_values(|e: Seq<char>| open_tag + e + close_tag)
}

/// Wrapping between empty tags changes nothing.
proof fn lemma_wrapped_empty(es: Seq<Seq<char>>)
    ensures
        wrapped_views(es, Seq::empty(), Seq::empty()) == es,
{
    assert forall|i: int| 0 <= i < es.len() implies wrapped_views(
        es,
        Seq::empty(),
        Seq::empty(),
    )[i] == es[i] by {
        assert(Seq::<char>::empty() + es[i] + Seq::<char>::empty() =~= es[i]);
    }
    assert(wrapped_views(es, Seq::empty(), Seq::empty()) =~= es);
}

/// Each entry of `entries` wrapped between the tags, joined with `sep`.
fn render_entries(
    entries: &[String],
    open_tag: &Vec<char>,
    close_tag: &Vec<char>,
    sep: &Vec<char>,
) -> (r: Vec<char>)
    ensures
        r@ == join_with(wrapped_views(str_views(entries@), open_tag@, close_tag@), sep@),
{
    let mut pieces: Vec<Vec<char>> = Vec::new();
    let mut i: usize = 0;
    while i < entries.len()
        invariant
            i <= entries@.len(),
            pieces@.len() == i,
            forall|j: int| 0 <= j < i ==> (#[trigger] pieces@[j])@ == open_tag@ + entries@[j]@
                + close_tag@,
        decreases entries@.len() - i,
    {
        let mut piece: Vec<char> = Vec::new();
        extend_chars(&mut piece, open_tag);
        let entry_chars = chars_of(entries[i].as_str());
        extend_chars(&mut piece, &entry_chars);
        extend_chars(&mut piece, close_tag);
        assert(piece@ =~= open_tag@ + entries@[i as int]@ + close_tag@);
        pieces.push(piece);
        i = i + 1;
    }
    assert(char_views(pieces@) =~~= wrapped_views(str_views(entries@), open_tag@, close_tag@));
    join_chars(&pieces, sep)
}

/// One rendered section: a level-2 heading in Markdown or HTML, or the bare
/// content under an unknown format tag.
pub fn format_section(title: &str, content: &str, format: &str) -> (r: String)
    ensures
        format@ == "markdown"@ ==> r@ == "## "@ + title@ + "\n\n"@ + content@ + "\n"@,
        format@ == "html"@ ==> r@ == "<h2>"@ + title@ + "</h2>\n\n"@ + content@ + "\n"@,
        format@ != "markdown"@ && format@ != "html"@ ==> r@ == content@,
{
    proof {
        reveal_strlit("markdown");
        reveal_strlit("html");
        assert("markdown"@.len() == 8);
        assert("html"@.len() == 4);
    }
    if str_eq(format, "markdown") {
        let mut out = String::from_str("## ");
        out.append(title);
        out.append("\n\n");
        out.append(content);
        out.append("\n");
        out
    } else if str_eq(format, "html") {
        let mut out = String::from_str("<h2>");
        out.append(title);
        out.append("</h2>\n\n");
        out.append(content);
        out.append("\n");
        out
    } else {
        String::from_str(content)
    }
}

/// The rendered main title.
pub fn format_title(title: &str, format: &str) -> (r: String)
    ensures
        format@ == "markdown"@ ==> r@ == "# "@ + title@ + "\n\n"@,
        format@ == "html"@ ==> r@ == "<h1>"@ + title@ + "</h1>\n\n"@,
        format@ != "markdown"@ && format@ != "html"@ ==> r@ == title@,
{
    proof {
        reveal_strlit("markdown");
        reveal_strlit("html");
        assert("markdown"@.len() == 8);
        assert("html"@.len() == 4);
    }
    if str_eq(format, "markdown") {
        let mut out = String::from_str("# ");
        out.append(title);
        out.append("\n\n");
        out
    } else if str_eq(format, "html") {
        let mut out = String::from_str("<h1>");
        out.append(title);
        out.append("</h1>\n\n");
        out
    } else {
        String::from_str(title)
    }
}

/// A rendered list block: heading, entries, trailing newline. In Markdown
/// the entries are joined with `entry_sep`; in HTML each entry is wrapped in
/// a paragraph tag and the wrapped entries are joined with newlines. An
/// empty entry list renders as the empty string; an unknown format tag
/// yields the bare Markdown-style join.
fn format_entry_block(
    entries: &[String],
    md_heading: &str,
    html_heading: &str,
    entry_sep: &str,
    format: &str,
) -> (r: String)
    ensures
        entries@.len() == 0 ==> r@ == Seq::<char>::empty(),
        entries@.len() > 0 && format@ == "markdown"@ ==> r@ == md_heading@ + join_with(
            str_views(entries@),
            entry_sep@,
        ) + "\n"@,
        entries@.len() > 0 && format@ == "html"@ ==> r@ == html_heading@ + join_with(
            wrapped_views(str_views(entries@), "<p>"@, "</p>"@),
            "\n"@,
        ) + "\n"@,
        entries@.len() > 0 && format@ != "markdown"@ && format@ != "html"@ ==> r@ == join_with(
            str_views(entries@),
            entry_sep@,
        ),
{
    proof {
        reveal_strlit("markdown");
        reveal_strlit("html");
        assert("markdown"@.len() == 8);
        assert("html"@.len() == 4);
    }
    if entries.len() == 0 {
        proof {
            reveal_strlit("");
            assert(""@ =~= Seq::<char>::empty());
        }
        return String::from_str("");
    }
    let no_tag: Vec<char> = Vec::new();
    proof {
        lemma_wrapped_empty(str_views(entries@));
    }
    if str_eq(format, "markdown") {
        let sep = chars_of(entry_sep);
        let body = render_entries(entries, &no_tag, &no_tag, &sep);
        let mut out = String::from_str(md_heading);
        let body_str = string_of(&body);
        out.append(body_str.as_str());
        out.append("\n");
        out
    } else if str_eq(format, "html") {
        let open_tag = chars_of("<p>");
        let close_tag = chars_of("</p>");
        let sep = chars_of("\n");
        let body = render_entries(entries, &open_tag, &close_tag, &sep);
        let mut out = String::from_str(html_heading);
        let body_str = string_of(&body);
        out.append(body_str.as_str());
        out.append("\n");
        out
    } else {
        let sep = chars_of(entry_sep);
        let body = render_entries(entries, &no_tag, &no_tag, &sep);
        string_of(&body)
    }
}

/// The rendered glossary block; entries are separated by blank lines in
/// Markdown.
pub fn format_glossary(glossary: &[String], format: &str) -> (r: String)
    ensures
        glossary@.len() == 0 ==> r@ == Seq::<char>::empty(),
        glossary@.len() > 0 && format@ == "markdown"@ ==> r@ == "# Glossary\n\n"@ + join_with(
            str_views(glossary@),
            "\n\n"@,
        ) + "\n"@,
        glossary@.len() > 0 && format@ == "html"@ ==> r@ == "<h1>Glossary</h1>\n\n"@ + join_with(
            wrapped_views(str_views(glossary@), "<p>"@, "</p>"@),
            "\n"@,
        ) + "\n"@,
        glossary@.len() > 0 && format@ != "markdown"@ && format@ != "html"@ ==> r@ == join_with(
            str_views(glossary@),
            "\n\n"@,
        ),
{
    format_entry_block(glossary, "# Glossary\n\n", "<h1>Glossary</h1>\n\n", "\n\n", format)
}

/// The rendered references block; entries are separated by single newlines
/// in Markdown.
pub fn format_references(references: &[String], format: &str) -> (r: String)
    ensures
        references@.len() == 0 ==> r@ == Seq::<char>::empty(),
        references@.len() > 0 && format@ == "markdown"@ ==> r@ == "# References\n\n"@ + join_with(
            str_views(references@),
            "\n"@,
        ) + "\n"@,
        references@.len() > 0 && format@ == "html"@ ==> r@ == "<h1>References</h1>\n\n"@
            + join_with(wrapped_views(str_views(references@), "<p>"@, "</p>"@), "\n"@) + "\n"@,
        references@.len() > 0 && format@ != "markdown"@ && format@ != "html"@ ==> r@ == join_with(
            str_views(references@),
            "\n"@,
        ),
{
    format_entry_block(references, "# References\n\n", "<h1>References</h1>\n\n", "\n", format)
}

/// The rendered additional-resources block; entries are separated by single
/// newlines in Markdown.
pub fn format_additional_resources(resources: &[String], format: &str) -> (r: String)
    ensures
        resources@.len() == 0 ==> r@ == Seq::<char>::empty(),
        resources@.len() > 0 && format@ == "markdown"@ ==> r@ == "# Additional Resources\n\n"@
            + join_with(str_views(resources@), "\n"@) + "\n"@,
        resources@.len() > 0 && format@ == "html"@ ==> r@ == "<h1>Additional Resources</h1>\n\n"@
            + join_with(wrapped_views(str_views(resources@), "<p>"@, "</p>"@), "\n"@) + "\n"@,
        resources@.len() > 0 && format@ != "markdown"@ && format@ != "html"@ ==> r@ == join_with(
            str_views(resources@),
            "\n"@,
        ),
{
    format_entry_block(
        resources,
        "# Additional Resources\n\n",
        "<h1>Additional Resources</h1>\n\n",
        "\n",
        format,
    )
}

/// The marker that sets a keyword in bold.
pub open spec fn bold_marker(kw: Seq<char>) -> Seq<char> {
    "**"@ + kw + "**"@
}

/// `text` with every occurrence of every non-empty keyword, applied in
/// order, set in bold. Empty keywords are skipped.
pub open spec fn highlight_spec(text: Seq<char>, kws: Seq<Seq<char>>) -> Seq<char>
    decreases kws.len(),
{
    if kws.len() == 0 {
        text
    } else {
        let stepped = if kws[0].len() > 0 {
            replace_all_spec(text, kws[0], bold_marker(kws[0]))
        } else {
            text
        };
        highlight_spec(stepped, kws.drop_first())
    }
}

/// Highlighting one more keyword continues from the already highlighted
/// text.
proof fn lemma_highlight_push(text: Seq<char>, kws: Seq<Seq<char>>, kw: Seq<char>)
    ensures
        highlight_spec(text, kws.push(kw)) == if kw.len() > 0 {
            replace_all_spec(highlight_spec(text, kws), kw, bold_marker(kw))
        } else {
            highlight_spec(text, kws)
        },
    decreases kws.len(),
{
    let one = kws.push(kw);
    if kws.len() == 0 {
        assert(one[0] == kw);
        assert(one.drop_first() =~= kws);
        let stepped = if kw.len() > 0 {
            replace_all_spec(text, kw, bold_marker(kw))
        } else {
            text
        };
        assert(highlight_spec(text, one) == highlight_spec(stepped, one.drop_first()));
        assert(highlight_spec(stepped, kws) == stepped);
        assert(highlight_spec(text, kws) == text);
    } else {
        assert(one[0] == kws[0]);
        assert(one.drop_first() =~= kws.drop_first().push(kw));
        let stepped = if kws[0].len() > 0 {
            replace_all_spec(text, kws[0], bold_marker(kws[0]))
        } else {
            text
        };
        assert(highlight_spec(text, one) == highlight_spec(stepped, one.drop_first()));
        assert(highlight_spec(text, kws) == highlight_spec(stepped, kws.drop_first()));
        lemma_highlight_push(stepped, kws.drop_first(), kw);
    }
}

/// Whether the regex compiler accepts the escaped literal `pat`. An
/// escaped literal is always valid pattern syntax, so this fails only past
/// the compiler's size limit; the answer depends on the pattern alone.
pub uninterp spec fn literal_pattern_ok(pat: Seq<char>) -> bool;

/// Relies on `regex::escape`, `regex::Regex::new` and
/// `Regex::replace_all` with a `NoExpand` literal replacement: every
/// non-overlapping occurrence of the literal `pat`, scanned left to right,
/// is replaced by `repl`, and the replacement text is not rescanned.
/// `None` exactly when the escaped pattern fails to compile.
#[verifier::external_body]
fn regex_replace_literal(text: &str, pat: &str, repl: &str) -> (r: Option<String>)
    requires
        pat@.len() >= 1,
    ensures
        r is Some <==> literal_pattern_ok(pat@),
        r is Some ==> r->0@ == replace_all_spec(text@, pat@, repl@),
{
    match regex::Regex::new(&regex::escape(pat)) {
        Ok(re) => Some(re.replace_all(text, regex::NoExpand(repl)).into_owned()),
        Err(_) => None,
    }
}

/// Sets every occurrence of every non-empty keyword in bold, one keyword
/// after the other. This succeeds exactly when every non-empty keyword's
/// escaped pattern compiles — which fails only past the regex compiler's
/// size limit; a caller may treat `None` as leaving the text
/// unhighlighted.
pub fn highlight_keywords(summary: &str, keywords: &[String]) -> (r: Option<String>)
    ensures
        r is Some <==> (forall|j: int|
            0 <= j < keywords@.len() ==> ((#[trigger] keywords@[j])@.len() > 0
                ==> literal_pattern_ok(keywords@[j]@))),
        r is Some ==> r->0@ == highlight_spec(summary@, str_views(keywords@)),
        keywords@.len() == 0 ==> r is Some && r->0@ == summary@,
{
    let mut cur = String::from_str(summary);
    let mut i: usize = 0;
    while i < keywords.len()
        invariant
            i <= keywords@.len(),
            cur@ == highlight_spec(summary@, str_views(keywords@.take(i as int))),
            forall|j: int| 0 <= j < i ==> ((#[trigger] keywords@[j])@.len() > 0
                ==> literal_pattern_ok(keywords@[j]@)),
        decreases keywords@.len() - i,
    {
        proof {
            assert(str_views(keywords@.take(i + 1 as int)) =~= str_views(
                keywords@.take(i as int),
            ).push(keywords@[i as int]@));
            lemma_highlight_push(summary@, str_views(keywords@.take(i as int)), keywords@[i as int]@);
        }
        let kw = &keywords[i];
        if !kw.as_str().is_empty() {
            let mut marker = String::from_str("**");
            marker.append(kw.as_str());
            marker.append("**");
            match regex_replace_literal(cur.as_str(), kw.as_str(), marker.as_str()) {
                Some(next) => {
                    cur = next;
                },
                None => {
                    assert(keywords@[i as int]@.len() > 0 && !literal_pattern_ok(
                        keywords@[i as int]@,
                    ));
                    return None;
                },
            }
        }
        i = i + 1;
    }
    assert(keywords@.take(keywords@.len() as int) =~= keywords@);
    Some(cur)
}

} // verus!
