//! Parsing of model replies into structured chapter results.
//!
//! Two deliberately separate strategies exist: `parse_structured` for the
//! strict-JSON reply shape, and `parse_delimited` for the legacy free-text
//! shape with labelled blocks. A deployment picks one; nothing here guesses.

use vstd::prelude::*;
use vstd::string::*;

use crate::errors::SummaryError;
use crate::text::{
    chars_of, chars_eq, char_views, extend_chars, find_from, is_match_at, match_at, split_on,
    split_on_chars, string_of, str_views, subrange_chars, trim_chars, trim_spec,
};

verus! {

broadcast use vstd::string::group_string_axioms;

/// The structured output collected for one chapter.
#[derive(Clone, Debug)]
pub struct ChapterResult {
    pub summary: String,
    pub keywords: Vec<String>,
    pub glossary: Vec<String>,
    pub references: Vec<String>,
    pub additional_resources: Vec<String>,
}

/// The mathematical content of a `ChapterResult`.
pub ghost struct ChapterResultModel {
    pub summary: Seq<char>,
    pub keywords: Seq<Seq<char>>,
    pub glossary: Seq<Seq<char>>,
    pub references: Seq<Seq<char>>,
    pub additional_resources: Seq<Seq<char>>,
}

impl View for ChapterResult {
    type V = ChapterResultModel;

    open spec fn view(&self) -> ChapterResultModel {
        ChapterResultModel {
            summary: self.summary@,
            keywords: str_views(self.keywords@),
            glossary: str_views(self.glossary@),
            references: str_views(self.references@),
            additional_resources: str_views(self.additional_resources@),
        }
    }
}

/// The model of a result with nothing collected yet.
pub open spec fn empty_model() -> ChapterResultModel {
    ChapterResultModel {
        summary: Seq::empty(),
        keywords: Seq::empty(),
        glossary: Seq::empty(),
        references: Seq::empty(),
        additional_resources: Seq::empty(),
    }
}

/// A result with nothing collected yet.
pub fn empty_result() -> (r: ChapterResult)
    ensures
        r@ == empty_model(),
{
    let r = ChapterResult {
        summary: String::new(),
        keywords: Vec::new(),
        glossary: Vec::new(),
        references: Vec::new(),
        additional_resources: Vec::new(),
    };
    assert(r@.keywords =~= empty_model().keywords);
    assert(r@.glossary =~= empty_model().glossary);
    assert(r@.references =~= empty_model().references);
    assert(r@.additional_resources =~= empty_model().additional_resources);
    r
}

/// Two narratives joined by a blank line; an empty side disappears.
pub open spec fn joined_summary(a: Seq<char>, b: Seq<char>) -> Seq<char> {
    if a.len() == 0 {
        b
    } else if b.len() == 0 {
        a
    } else {
        a + "\n\n"@ + b
    }
}

/// The merge of a later section's result into an accumulated one: the
/// narratives are joined by a blank line and every list is concatenated in
/// section order.
pub open spec fn merged_model(acc: ChapterResultModel, s: ChapterResultModel) -> ChapterResultModel {
    ChapterResultModel {
        summary: joined_summary(acc.summary, s.summary),
        keywords: acc.keywords + s.keywords,
        glossary: acc.glossary + s.glossary,
        references: acc.references + s.references,
        additional_resources: acc.additional_resources + s.additional_resources,
    }
}

/// Appends the strings of `src` to `dst`.
fn extend_strings(dst: &mut Vec<String>, src: &Vec<String>)
    ensures
        str_views(final(dst)@) == str_views(old(dst)@) + str_views(src@),
{
    let mut i: usize = 0;
    while i < src.len()
        invariant
            i <= src@.len(),
            dst@.len() == old(dst)@.len() + i,
            forall|j: int| 0 <= j < old(dst)@.len() ==> (#[trigger] dst@[j])@ == old(dst)@[j]@,
            forall|j: int| 0 <= j < i ==> dst@[old(dst)@.len() + j]@ == (#[trigger] src@[j])@,
        decreases src@.len() - i,
    {
        dst.push(src[i].clone());
        i = i + 1;
    }
    proof {
        let lhs = str_views(dst@);
        let rhs = str_views(old(dst)@) + str_views(src@);
        assert(lhs.len() == rhs.len());
        assert forall|k: int| 0 <= k < lhs.len() implies lhs[k] == rhs[k] by {
            assert(lhs[k] == dst@[k]@);
            if k < old(dst)@.len() {
                assert(rhs[k] == old(dst)@[k]@);
            } else {
                assert(rhs[k] == src@[k - old(dst)@.len()]@);
                assert(dst@[k]@ == src@[k - old(dst)@.len()]@);
            }
        }
        assert(lhs =~= rhs);
    }
}

impl ChapterResult {
    /// Merges a later section's result into this one, in section order.
    pub fn merge(&mut self, section: &ChapterResult)
        ensures
            final(self)@ == merged_model(old(self)@, section@),
    {
        if self.summary.as_str().is_empty() {
            self.summary = section.summary.clone();
        } else if !section.summary.as_str().is_empty() {
            self.summary.append("\n\n");
            self.summary.append(section.summary.as_str());
        }
        extend_strings(&mut self.keywords, &section.keywords);
        extend_strings(&mut self.glossary, &section.glossary);
        extend_strings(&mut self.references, &section.references);
        extend_strings(&mut self.additional_resources, &section.additional_resources);
    }
}

/// `s` with every leading occurrence of `pat` repeatedly removed.
pub open spec fn strip_prefix_all(s: Seq<char>, pat: Seq<char>) -> Seq<char>
    decreases s.len(),
{
    if pat.len() > 0 && is_match_at(s, pat, 0) {
        strip_prefix_all(s.skip(pat.len() as int), pat)
    } else {
        s
    }
}

/// `s` with every trailing occurrence of `pat` repeatedly removed.
pub open spec fn strip_suffix_all(s: Seq<char>, pat: Seq<char>) -> Seq<char>
    decreases s.len(),
{
    if pat.len() > 0 && is_match_at(s, pat, s.len() - pat.len()) {
        strip_suffix_all(s.take(s.len() - pat.len()), pat)
    } else {
        s
    }
}

/// What cleaning a raw reply yields: the reply trimmed, with any Markdown
/// code-fence wrapper around the JSON removed.
pub open spec fn cleaned_spec(s: Seq<char>) -> Seq<char> {
    strip_suffix_all(strip_prefix_all(trim_spec(s), "```json"@), "```"@)
}

/// `v` with every leading occurrence of `pat` repeatedly removed.
fn strip_prefix_all_chars(v: Vec<char>, pat: &Vec<char>) -> (r: Vec<char>)
    ensures
        r@ == strip_prefix_all(v@, pat@),
    decreases v@.len(),
{
    if pat.len() > 0 && match_at(&v, pat, 0) {
        let rest = subrange_chars(&v, pat.len(), v.len());
        assert(rest@ == v@.skip(pat@.len() as int));
        strip_prefix_all_chars(rest, pat)
    } else {
        v
    }
}

/// `v` with every trailing occurrence of `pat` repeatedly removed.
fn strip_suffix_all_chars(v: Vec<char>, pat: &Vec<char>) -> (r: Vec<char>)
    ensures
        r@ == strip_suffix_all(v@, pat@),
    decreases v@.len(),
{
    if pat.len() > 0 && pat.len() <= v.len() && match_at(&v, pat, v.len() - pat.len()) {
        let rest = subrange_chars(&v, 0, v.len() - pat.len());
        assert(rest@ == v@.take(v@.len() - pat@.len()));
        strip_suffix_all_chars(rest, pat)
    } else {
        assert(pat@.len() > 0 && pat@.len() > v@.len() ==> !is_match_at(
            v@,
            pat@,
            v@.len() - pat@.len(),
        ));
        v
    }
}

/// Cleans a raw model reply: trims it and strips a Markdown code fence
/// (```json ... ```) that models sometimes wrap around the JSON body.
pub fn clean_response(response: &str) -> (r: String)
    ensures
        r@ == cleaned_spec(response@),
{
    let cs = chars_of(response);
    let trimmed = trim_chars(&cs);
    let fence_open = chars_of("```json");
    let fence_close = chars_of("```");
    let step1 = strip_prefix_all_chars(trimmed, &fence_open);
    let step2 = strip_suffix_all_chars(step1, &fence_close);
    string_of(&step2)
}

/// The view of an optional string.
pub open spec fn opt_str_view(o: Option<String>) -> Option<Seq<char>> {
    match o {
        Some(s) => Some(s@),
        None => None,
    }
}

/// The views of a sequence of optional strings.
pub open spec fn opt_str_views(es: Seq<Option<String>>) -> Seq<Option<Seq<char>>> {
    es.map_values(|e: Option<String>| opt_str_view(e))
}

/// Whether `serde_json::from_str::<Value>` accepts `s`. The answer depends
/// on the text alone.
pub uninterp spec fn json_ok(s: Seq<char>) -> bool;

/// The string value under `key` in the JSON object parsed from `s`, or
/// `None` when the key is absent or its value is not a string. Meaningful
/// only where `json_ok(s)` holds; the result depends on `s` and `key`
/// alone.
pub uninterp spec fn str_field_of(s: Seq<char>, key: Seq<char>) -> Option<Seq<char>>;

/// The entries of the array under `key` in the JSON object parsed from
/// `s`, each entry as its string value or `None` where it is not a string;
/// an absent or non-array field gives the empty sequence. Meaningful only
/// where `json_ok(s)` holds; the result depends on `s` and `key` alone.
pub uninterp spec fn list_field_of(s: Seq<char>, key: Seq<char>) -> Seq<Option<Seq<char>>>;

/// Relies on `serde_json::from_str` and `serde_json::Value::{get,
/// as_str}`: reads the string field `key` of the parsed reply; the outer
/// option is `None` exactly when the reply is not valid JSON.
#[verifier::external_body]
fn field_string(s: &str, key: &str) -> (r: Option<Option<String>>)
    ensures
        r is Some <==> json_ok(s@),
        r is Some ==> opt_str_view(r->0) == str_field_of(s@, key@),
{
    match serde_json::from_str::<serde_json::Value>(s) {
        Ok(v) => Some(v.get(key).and_then(|x| x.as_str()).map(|t| t.to_string())),
        Err(_) => None,
    }
}

/// Relies on `serde_json::from_str` and `serde_json::Value::{get,
/// as_array, as_str}`: reads the array field `key` of the parsed reply,
/// each entry as its string or `None` where an entry is not a string; the
/// outer option is `None` exactly when the reply is not valid JSON.
#[verifier::external_body]
fn field_string_list(s: &str, key: &str) -> (r: Option<Vec<Option<String>>>)
    ensures
        r is Some <==> json_ok(s@),
        r is Some ==> opt_str_views(r->0@) == list_field_of(s@, key@),
{
    match serde_json::from_str::<serde_json::Value>(s) {
        Ok(v) => Some(
            match v.get(key).and_then(|x| x.as_array()) {
                Some(a) => a.iter().map(|e| e.as_str().map(|t| t.to_string())).collect(),
                None => Vec::new(),
            },
        ),
        Err(_) => None,
    }
}

/// The entries that are present strings, in order.
pub open spec fn present_strings(es: Seq<Option<Seq<char>>>) -> Seq<Seq<char>>
    decreases es.len(),
{
    if es.len() == 0 {
        Seq::empty()
    } else {
        (match es[0] {
            Some(e) => seq![e],
            None => Seq::empty(),
        }) + present_strings(es.drop_first())
    }
}

/// Keeping the present strings commutes with appending one entry.
proof fn lemma_present_strings_push(es: Seq<Option<Seq<char>>>, e: Option<Seq<char>>)
    ensures
        present_strings(es.push(e)) == present_strings(es) + (match e {
            Some(x) => seq![x],
            None => Seq::<Seq<char>>::empty(),
        }),
    decreases es.len(),
{
    let head_of = |f: Option<Seq<char>>| match f {
        Some(x) => seq![x],
        None => Seq::<Seq<char>>::empty(),
    };
    if es.len() == 0 {
        assert(es.push(e)[0] == e);
        assert(es.push(e).drop_first() =~= es);
        assert(present_strings(es.push(e)) == head_of(e) + present_strings(es));
        assert(present_strings(es) =~= Seq::<Seq<char>>::empty());
        assert(head_of(e) + Seq::<Seq<char>>::empty() =~= head_of(e));
        assert(present_strings(es) + head_of(e) =~= head_of(e));
    } else {
        assert(es.push(e)[0] == es[0]);
        assert(es.push(e).drop_first() =~= es.drop_first().push(e));
        lemma_present_strings_push(es.drop_first(), e);
        assert(head_of(es[0]) + (present_strings(es.drop_first()) + head_of(e)) =~= (head_of(es[0])
            + present_strings(es.drop_first())) + head_of(e));
    }
}

/// The entries of `items` that are present strings, in order.
fn collect_present(items: &Vec<Option<String>>) -> (r: Vec<String>)
    ensures
        str_views(r@) == present_strings(opt_str_views(items@)),
{
    let mut out: Vec<String> = Vec::new();
    let mut i: usize = 0;
    while i < items.len()
        invariant
            i <= items@.len(),
            str_views(out@) == present_strings(opt_str_views(items@.take(i as int))),
        decreases items@.len() - i,
    {
        proof {
            assert(opt_str_views(items@.take(i + 1 as int)) =~= opt_str_views(
                items@.take(i as int),
            ).push(opt_str_view(items@[i as int])));
            lemma_present_strings_push(
                opt_str_views(items@.take(i as int)),
                opt_str_view(items@[i as int]),
            );
        }
        match &items[i] {
            Some(s) => {
                let ghost prev = str_views(out@);
                out.push(s.clone());
                assert(str_views(out@) =~= prev.push(s@));
                assert(prev.push(s@) =~= prev + seq![s@]);
            },
            None => {
            },
        }
        i = i + 1;
    }
    assert(items@.take(items@.len() as int) =~= items@);
    out
}

/// The result that the strict-JSON strategy must produce from a valid
/// reply: each field read from the object, missing fields empty, and
/// non-string list entries dropped.
pub open spec fn structured_model(s: Seq<char>) -> ChapterResultModel {
    ChapterResultModel {
        summary: match str_field_of(s, "summary"@) {
            Some(t) => t,
            None => Seq::empty(),
        },
        keywords: present_strings(list_field_of(s, "keywords"@)),
        glossary: present_strings(list_field_of(s, "glossary"@)),
        references: present_strings(list_field_of(s, "references"@)),
        additional_resources: present_strings(list_field_of(s, "additional_resources"@)),
    }
}

/// Parses a cleaned reply under the strict-JSON strategy. A reply that is
/// not valid JSON is a schema violation and fatal to the run; a valid one
/// yields the object's fields, with absent fields empty.
pub fn parse_structured(reply: &str) -> (r: Result<ChapterResult, SummaryError>)
    ensures
        r is Ok <==> json_ok(reply@),
        r is Ok ==> r->Ok_0@ == structured_model(reply@),
        r is Err ==> r->Err_0 == SummaryError::FatalParse,
{
    let summary = match field_string(reply, "summary") {
        Some(Some(s)) => s,
        Some(None) => String::new(),
        None => {
            return Err(SummaryError::FatalParse);
        },
    };
    let keywords = match field_string_list(reply, "keywords") {
        Some(items) => collect_present(&items),
        None => {
            return Err(SummaryError::FatalParse);
        },
    };
    let glossary = match field_string_list(reply, "glossary") {
        Some(items) => collect_present(&items),
        None => {
            return Err(SummaryError::FatalParse);
        },
    };
    let references = match field_string_list(reply, "references") {
        Some(items) => collect_present(&items),
        None => {
            return Err(SummaryError::FatalParse);
        },
    };
    let additional_resources = match field_string_list(reply, "additional_resources") {
        Some(items) => collect_present(&items),
        None => {
            return Err(SummaryError::FatalParse);
        },
    };
    Ok(
        ChapterResult {
            summary,
            keywords,
            glossary,
            references,
            additional_resources,
        },
    )
}

/// Decodes the reply of the plain summarize endpoint: a JSON object whose
/// `summary` field holds the summary text. Anything else is a malformed
/// response.
pub fn decode_summarize_reply(body: &str) -> (r: Result<String, SummaryError>)
    ensures
        json_ok(body@) && str_field_of(body@, "summary"@) is Some ==> r is Ok && Some(r->Ok_0@)
            == str_field_of(body@, "summary"@),
        json_ok(body@) && str_field_of(body@, "summary"@) is None ==> r == Result::<
            String,
            SummaryError,
        >::Err(SummaryError::MalformedResponse),
        !json_ok(body@) ==> r == Result::<String, SummaryError>::Err(
            SummaryError::MalformedResponse,
        ),
{
    match field_string(body, "summary") {
        Some(Some(s)) => Ok(s),
        Some(None) => Err(SummaryError::MalformedResponse),
        None => Err(SummaryError::MalformedResponse),
    }
}

/// The administrative headings whose blocks are dropped from a delimited
/// reply.
pub open spec fn is_admin_heading(line: Seq<char>) -> bool {
    line == "Dedication"@ || line == "Foreword"@ || line == "About the Author"@ || line
        == "Preface"@ || line == "Acknowledgments"@
}

/// The first line of a block.
pub open spec fn first_line(b: Seq<char>) -> Seq<char> {
    split_on(b, "\n"@)[0]
}

/// The pieces of `ps`, each trimmed, with blank ones dropped.
pub open spec fn cleaned_pieces(ps: Seq<Seq<char>>) -> Seq<Seq<char>>
    decreases ps.len(),
{
    if ps.len() == 0 {
        Seq::empty()
    } else {
        (if trim_spec(ps[0]).len() == 0 {
            Seq::<Seq<char>>::empty()
        } else {
            seq![trim_spec(ps[0])]
        }) + cleaned_pieces(ps.drop_first())
    }
}

/// Cleaning commutes with appending one piece.
proof fn lemma_cleaned_pieces_push(ps: Seq<Seq<char>>, p: Seq<char>)
    ensures
        cleaned_pieces(ps.push(p)) == cleaned_pieces(ps) + (if trim_spec(p).len() == 0 {
            Seq::<Seq<char>>::empty()
        } else {
            seq![trim_spec(p)]
        }),
    decreases ps.len(),
{
    let head_of = |q: Seq<char>| if trim_spec(q).len() == 0 {
        Seq::<Seq<char>>::empty()
    } else {
        seq![trim_spec(q)]
    };
    if ps.len() == 0 {
        assert(ps.push(p)[0] == p);
        assert(ps.push(p).drop_first() =~= ps);
        assert(cleaned_pieces(ps.push(p)) == head_of(p) + cleaned_pieces(ps));
        assert(cleaned_pieces(ps) =~= Seq::<Seq<char>>::empty());
        assert(head_of(p) + Seq::<Seq<char>>::empty() =~= head_of(p));
        assert(cleaned_pieces(ps) + head_of(p) =~= head_of(p));
    } else {
        assert(ps.push(p)[0] == ps[0]);
        assert(ps.push(p).drop_first() =~= ps.drop_first().push(p));
        lemma_cleaned_pieces_push(ps.drop_first(), p);
        assert(head_of(ps[0]) + (cleaned_pieces(ps.drop_first()) + head_of(p)) =~= (head_of(ps[0])
            + cleaned_pieces(ps.drop_first())) + head_of(p));
    }
}

/// The entries of a labelled block's remainder: split on `sep`, trimmed,
/// blanks dropped.
pub open spec fn entry_list(rest: Seq<char>, sep: Seq<char>) -> Seq<Seq<char>> {
    cleaned_pieces(split_on(rest, sep))
}

/// The entries of a labelled block's remainder.
fn entry_list_exec(rest: &Vec<char>, sep: &Vec<char>) -> (r: Vec<String>)
    ensures
        str_views(r@) == entry_list(rest@, sep@),
{
    let pieces = split_on_chars(rest, sep);
    let ghost sps = split_on(rest@, sep@);
    let mut out: Vec<String> = Vec::new();
    let mut i: usize = 0;
    while i < pieces.len()
        invariant
            char_views(pieces@) == sps,
            i <= pieces@.len(),
            str_views(out@) == cleaned_pieces(sps.take(i as int)),
        decreases pieces@.len() - i,
    {
        proof {
            assert(sps.take(i + 1 as int) =~= sps.take(i as int).push(sps[i as int]));
            lemma_cleaned_pieces_push(sps.take(i as int), sps[i as int]);
            assert(pieces@[i as int]@ == sps[i as int]);
        }
        let trimmed = trim_chars(&pieces[i]);
        if trimmed.len() > 0 {
            let ghost prev = str_views(out@);
            out.push(string_of(&trimmed));
            assert(str_views(out@) =~= prev.push(trim_spec(sps[i as int])));
            assert(prev.push(trim_spec(sps[i as int])) =~= prev + seq![trim_spec(sps[i as int])]);
        } else {
            assert(str_views(out@) + Seq::<Seq<char>>::empty() =~= str_views(out@));
        }
        i = i + 1;
    }
    assert(sps.take(sps.len() as int) =~= sps);
    out
}

/// The parser state while folding over a delimited reply's blocks: the
/// collected result, and whether the next content block belongs to an
/// administrative section and is dropped.
pub ghost struct DelimState {
    pub acc: ChapterResultModel,
    pub skip_next: bool,
}

/// One field of the model extended by entries.
pub open spec fn add_keywords(m: ChapterResultModel, es: Seq<Seq<char>>) -> ChapterResultModel {
    ChapterResultModel { keywords: m.keywords + es, ..m }
}

/// One field of the model extended by entries.
pub open spec fn add_glossary(m: ChapterResultModel, es: Seq<Seq<char>>) -> ChapterResultModel {
    ChapterResultModel { glossary: m.glossary + es, ..m }
}

/// One field of the model extended by entries.
pub open spec fn add_references(m: ChapterResultModel, es: Seq<Seq<char>>) -> ChapterResultModel {
    ChapterResultModel { references: m.references + es, ..m }
}

/// One field of the model extended by entries.
pub open spec fn add_resources(m: ChapterResultModel, es: Seq<Seq<char>>) -> ChapterResultModel {
    ChapterResultModel { additional_resources: m.additional_resources + es, ..m }
}

/// The narrative extended by one block.
pub open spec fn add_summary(m: ChapterResultModel, b: Seq<char>) -> ChapterResultModel {
    ChapterResultModel { summary: joined_summary(m.summary, b), ..m }
}

/// One step of the delimited parse, on one raw block.
///
/// A blank block changes nothing. After an administrative heading that
/// stood alone in its block, one content block is dropped. A leading
/// field label routes the block's remainder to that field: keywords split
/// on commas, the other lists split on newlines. A block whose first line
/// is an administrative heading is dropped, and when the heading is the
/// whole block, the following block is dropped with it as the section's
/// body. Anything else joins the narrative summary.
pub open spec fn delim_step(st: DelimState, raw: Seq<char>) -> DelimState {
    let b = trim_spec(raw);
    if b.len() == 0 {
        st
    } else if st.skip_next {
        DelimState { acc: st.acc, skip_next: false }
    } else if is_match_at(b, "Keywords:"@, 0) {
        DelimState {
            acc: add_keywords(st.acc, entry_list(b.skip("Keywords:"@.len() as int), ","@)),
            skip_next: false,
        }
    } else if is_match_at(b, "Glossary:"@, 0) {
        DelimState {
            acc: add_glossary(st.acc, entry_list(b.skip("Glossary:"@.len() as int), "\n"@)),
            skip_next: false,
        }
    } else if is_match_at(b, "Citations and References:"@, 0) {
        DelimState {
            acc: add_references(
                st.acc,
                entry_list(b.skip("Citations and References:"@.len() as int), "\n"@),
            ),
            skip_next: false,
        }
    } else if is_match_at(b, "References:"@, 0) {
        DelimState {
            acc: add_references(st.acc, entry_list(b.skip("References:"@.len() as int), "\n"@)),
            skip_next: false,
        }
    } else if is_match_at(b, "Additional Resources:"@, 0) {
        DelimState {
            acc: add_resources(
                st.acc,
                entry_list(b.skip("Additional Resources:"@.len() as int), "\n"@),
            ),
            skip_next: false,
        }
    } else if is_admin_heading(trim_spec(first_line(b))) {
        DelimState { acc: st.acc, skip_next: first_line(b) == b }
    } else {
        DelimState { acc: add_summary(st.acc, b), skip_next: false }
    }
}

/// The fold of `delim_step` over a sequence of blocks.
pub open spec fn delim_fold(st: DelimState, ps: Seq<Seq<char>>) -> DelimState
    decreases ps.len(),
{
    if ps.len() == 0 {
        st
    } else {
        delim_fold(delim_step(st, ps[0]), ps.drop_first())
    }
}

/// Folding one more block steps the fold once.
proof fn lemma_delim_fold_push(st: DelimState, ps: Seq<Seq<char>>, p: Seq<char>)
    ensures
        delim_fold(st, ps.push(p)) == delim_step(delim_fold(st, ps), p),
    decreases ps.len(),
{
    if ps.len() == 0 {
        assert(ps.push(p)[0] == p);
        assert(ps.push(p).drop_first() =~= ps);
        assert(delim_fold(delim_step(st, p), ps) == delim_step(st, p));
    } else {
        assert(ps.push(p)[0] == ps[0]);
        assert(ps.push(p).drop_first() =~= ps.drop_first().push(p));
        lemma_delim_fold_push(delim_step(st, ps[0]), ps.drop_first(), p);
    }
}

/// What the delimited strategy must produce from a reply: the fold of
/// `delim_step` over its blank-line-separated blocks, starting from an
/// empty result.
pub open spec fn parse_delimited_spec(text: Seq<char>) -> ChapterResultModel {
    delim_fold(
        DelimState { acc: empty_model(), skip_next: false },
        split_on(text, "\n\n"@),
    ).acc
}

/// Applies one block to the accumulating result, as `delim_step` says;
/// returns the new skip flag.
fn delim_apply(acc: &mut ChapterResult, skip: bool, raw: &Vec<char>) -> (new_skip: bool)
    ensures
        (DelimState { acc: final(acc)@, skip_next: new_skip }) == delim_step(
            DelimState { acc: old(acc)@, skip_next: skip },
            raw@,
        ),
{
    proof {
        reveal_strlit("\n");
        assert("\n"@.len() == 1);
    }
    let ghost st = DelimState { acc: old(acc)@, skip_next: skip };
    let b = trim_chars(raw);
    if b.len() == 0 {
        return skip;
    }
    if skip {
        return false;
    }
    let label_keywords = chars_of("Keywords:");
    let label_glossary = chars_of("Glossary:");
    let label_citations = chars_of("Citations and References:");
    let label_references = chars_of("References:");
    let label_resources = chars_of("Additional Resources:");
    if match_at(&b, &label_keywords, 0) {
        let rest = subrange_chars(&b, label_keywords.len(), b.len());
        assert(rest@ == trim_spec(raw@).skip("Keywords:"@.len() as int));
        let comma = chars_of(",");
        let entries = entry_list_exec(&rest, &comma);
        extend_strings(&mut acc.keywords, &entries);
        return false;
    }
    if match_at(&b, &label_glossary, 0) {
        let rest = subrange_chars(&b, label_glossary.len(), b.len());
        assert(rest@ == trim_spec(raw@).skip("Glossary:"@.len() as int));
        let nl = chars_of("\n");
        let entries = entry_list_exec(&rest, &nl);
        extend_strings(&mut acc.glossary, &entries);
        return false;
    }
    if match_at(&b, &label_citations, 0) {
        let rest = subrange_chars(&b, label_citations.len(), b.len());
        assert(rest@ == trim_spec(raw@).skip("Citations and References:"@.len() as int));
        let nl = chars_of("\n");
        let entries = entry_list_exec(&rest, &nl);
        extend_strings(&mut acc.references, &entries);
        return false;
    }
    if match_at(&b, &label_references, 0) {
        let rest = subrange_chars(&b, label_references.len(), b.len());
        assert(rest@ == trim_spec(raw@).skip("References:"@.len() as int));
        let nl = chars_of("\n");
        let entries = entry_list_exec(&rest, &nl);
        extend_strings(&mut acc.references, &entries);
        return false;
    }
    if match_at(&b, &label_resources, 0) {
        let rest = subrange_chars(&b, label_resources.len(), b.len());
        assert(rest@ == trim_spec(raw@).skip("Additional Resources:"@.len() as int));
        let nl = chars_of("\n");
        let entries = entry_list_exec(&rest, &nl);
        extend_strings(&mut acc.additional_resources, &entries);
        return false;
    }
    let nl = chars_of("\n");
    let (head, heading_only): (Vec<char>, bool) = match find_from(&b, &nl, 0) {
        None => {
            proof {
                crate::text::lemma_first_match_from(b@, "\n"@, 0);
                assert(split_on(b@, "\n"@) =~= seq![b@]);
            }
            (b.clone(), true)
        },
        Some(p) => {
            proof {
                assert(split_on(b@, "\n"@)[0] == b@.take(p as int));
                assert(b@.take(p as int).len() < b@.len());
            }
            (subrange_chars(&b, 0, p), false)
        },
    };
    assert(head@ == first_line(trim_spec(raw@)));
    assert(heading_only == (first_line(trim_spec(raw@)) == trim_spec(raw@)));
    let head_trimmed = trim_chars(&head);
    let admin_dedication = chars_of("Dedication");
    let admin_foreword = chars_of("Foreword");
    let admin_about = chars_of("About the Author");
    let admin_preface = chars_of("Preface");
    let admin_acknowledgments = chars_of("Acknowledgments");
    let is_admin = chars_eq(&head_trimmed, &admin_dedication) || chars_eq(
        &head_trimmed,
        &admin_foreword,
    ) || chars_eq(&head_trimmed, &admin_about) || chars_eq(&head_trimmed, &admin_preface)
        || chars_eq(&head_trimmed, &admin_acknowledgments);
    if is_admin {
        return heading_only;
    }
    if acc.summary.as_str().is_empty() {
        acc.summary = string_of(&b);
    } else {
        acc.summary.append("\n\n");
        let b_str = string_of(&b);
        acc.summary.append(b_str.as_str());
    }
    false
}

/// Parses a reply under the delimited free-text strategy: blocks separated
/// by blank lines, routed by their leading labels, with administrative
/// sections dropped and unlabelled blocks joined into the narrative. This
/// strategy never fails; an unrecognized reply simply becomes narrative.
pub fn parse_delimited(text: &str) -> (r: ChapterResult)
    ensures
        r@ == parse_delimited_spec(text@),
{
    let cs = chars_of(text);
    let sep = chars_of("\n\n");
    let pieces = split_on_chars(&cs, &sep);
    let ghost sps = split_on(text@, "\n\n"@);
    let ghost init = DelimState { acc: empty_model(), skip_next: false };
    let mut acc = empty_result();
    let mut skip: bool = false;
    let mut i: usize = 0;
    while i < pieces.len()
        invariant
            char_views(pieces@) == sps,
            i <= pieces@.len(),
            (DelimState { acc: acc@, skip_next: skip }) == delim_fold(init, sps.take(i as int)),
        decreases pieces@.len() - i,
    {
        proof {
            assert(sps.take(i + 1 as int) =~= sps.take(i as int).push(sps[i as int]));
            lemma_delim_fold_push(init, sps.take(i as int), sps[i as int]);
            assert(pieces@[i as int]@ == sps[i as int]);
        }
        skip = delim_apply(&mut acc, skip, &pieces[i]);
        i = i + 1;
    }
    assert(sps.take(sps.len() as int) =~= sps);
    acc
}

} // verus!
