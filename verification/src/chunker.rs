//! Token-budget-aware text splitting.
//!
//! A chapter is encoded with the fixed `cl100k_base` tokenizer, the token
//! sequence is cut into consecutive runs of at most `max_tokens` tokens, and
//! each run is decoded back to text. The cutting itself is plain verified
//! code; only the encode and decode calls are trusted.

use vstd::prelude::*;

use crate::errors::SummaryError;

verus! {

#[verifier::external_type_specification]
#[verifier::external_body]
pub struct ExCoreBPE(tiktoken_rs::CoreBPE);

/// The token sequence that the `cl100k_base` tokenizer produces for `s`,
/// or `None` when tokenization fails. The result depends on the text alone.
pub uninterp spec fn encoding_of(s: Seq<char>) -> Option<Seq<u32>>;

/// The text that the `cl100k_base` tokenizer decodes from `ts`, or `None`
/// when a rank is unknown or the bytes are not valid UTF-8. The result
/// depends on the tokens alone.
pub uninterp spec fn decoding_of(ts: Seq<u32>) -> Option<Seq<char>>;

/// Whether every part of `ts` decodes successfully.
pub open spec fn all_decodable(ts: Seq<Seq<u32>>) -> bool {
    forall|i: int| 0 <= i < ts.len() ==> (#[trigger] decoding_of(ts[i])) is Some
}

/// The concatenation of the decoded texts of the parts of `ts`.
pub open spec fn decoded_join(ts: Seq<Seq<u32>>) -> Seq<char> {
    Seq::new(ts.len(), |i: int| decoding_of(ts[i])->0).flatten()
}

/// Relies on `tiktoken_rs::cl100k_base`: builds the tokenizer from its
/// embedded, versioned rank table and fixed pattern, so construction
/// succeeds. Every tokenizer in this crate comes from here, so
/// `encoding_of` and `decoding_of` always speak of that one table.
#[verifier::external_body]
pub(crate) fn new_tokenizer() -> (r: Result<tiktoken_rs::CoreBPE, SummaryError>)
    ensures
        r is Ok,
{
    match tiktoken_rs::cl100k_base() {
        Ok(bpe) => Ok(bpe),
        Err(_) => Err(SummaryError::Encoding),
    }
}

/// Relies on `tiktoken_rs::CoreBPE::encode` (with every special token
/// allowed, as `encode_with_special_tokens` does): the returned ranks map
/// back, rank by rank, to byte runs that concatenate to exactly the input's
/// UTF-8 bytes. Hence decoding the whole result yields the input again, and
/// any partition of the result whose parts each decode joins back to the
/// input. An empty text has no ranks.
#[verifier::external_body]
pub(crate) fn encode_tokens(bpe: &tiktoken_rs::CoreBPE, text: &str) -> (r: Result<
    Vec<u32>,
    SummaryError,
>)
    ensures
        r is Ok <==> encoding_of(text@) is Some,
        r is Ok ==> Some(r->Ok_0@) == encoding_of(text@),
        r is Ok ==> decoding_of(r->Ok_0@) == Some(text@),
        text@.len() == 0 ==> r is Ok && r->Ok_0@.len() == 0,
        r is Ok ==> forall|ts: Seq<Seq<u32>>|
            #[trigger] all_decodable(ts) && ts.flatten() == r->Ok_0@ ==> decoded_join(ts) == text@,
        r is Err ==> r->Err_0 == SummaryError::Encoding,
{
    let allowed = bpe.special_tokens();
    match bpe.encode(text, &allowed) {
        Ok((tokens, _)) => Ok(tokens),
        Err(_) => Err(SummaryError::Encoding),
    }
}

/// Relies on `tiktoken_rs::CoreBPE::decode`: concatenates each rank's bytes
/// and reads them as UTF-8; succeeds exactly when every rank is known and
/// the bytes are valid UTF-8.
#[verifier::external_body]
pub(crate) fn decode_tokens(bpe: &tiktoken_rs::CoreBPE, tokens: &Vec<u32>) -> (r: Result<
    String,
    SummaryError,
>)
    ensures
        r is Ok <==> decoding_of(tokens@) is Some,
        r is Ok ==> Some(r->Ok_0@) == decoding_of(tokens@),
        r is Err ==> r->Err_0 == SummaryError::Encoding,
{
    match bpe.decode(tokens.as_slice()) {
        Ok(text) => Ok(text),
        Err(_) => Err(SummaryError::Encoding),
    }
}

/// The consecutive runs of at most `cap` tokens that cover `ts` in order.
pub open spec fn chunks_of(ts: Seq<u32>, cap: nat) -> Seq<Seq<u32>>
    decreases ts.len(),
{
    if cap == 0 || ts.len() == 0 {
        Seq::empty()
    } else if ts.len() <= cap {
        seq![ts]
    } else {
        seq![ts.take(cap as int)] + chunks_of(ts.skip(cap as int), cap)
    }
}

/// The runs cover the token sequence: concatenated in order they give back
/// exactly the input.
pub proof fn lemma_chunks_flatten(ts: Seq<u32>, cap: nat)
    requires
        cap >= 1,
    ensures
        chunks_of(ts, cap).flatten() == ts,
    decreases ts.len(),
{
    if ts.len() == 0 {
        assert(chunks_of(ts, cap).flatten() =~= ts);
    } else if ts.len() <= cap {
        assert(chunks_of(ts, cap) =~= seq![ts]);
        assert(seq![ts].flatten() =~= ts + seq![ts].drop_first().flatten());
        assert(seq![ts].drop_first() =~= Seq::<Seq<u32>>::empty());
        assert(seq![ts].flatten() =~= ts);
    } else {
        lemma_chunks_flatten(ts.skip(cap as int), cap);
        let cs = chunks_of(ts, cap);
        assert(cs[0] == ts.take(cap as int));
        assert(cs.drop_first() =~= chunks_of(ts.skip(cap as int), cap));
        assert(cs.flatten() == cs[0] + cs.drop_first().flatten());
        assert(ts.take(cap as int) + ts.skip(cap as int) =~= ts);
    }
}

/// Every run is non-empty and holds at most `cap` tokens.
pub proof fn lemma_chunks_bounded(ts: Seq<u32>, cap: nat)
    requires
        cap >= 1,
    ensures
        forall|i: int| 0 <= i < chunks_of(ts, cap).len() ==> 1 <= (#[trigger] chunks_of(ts, cap)[i]).len()
            <= cap,
    decreases ts.len(),
{
    if ts.len() == 0 || ts.len() <= cap {
    } else {
        lemma_chunks_bounded(ts.skip(cap as int), cap);
        let cs = chunks_of(ts, cap);
        assert forall|i: int| 0 <= i < cs.len() implies 1 <= (#[trigger] cs[i]).len() <= cap by {
            if i > 0 {
                assert(cs[i] == chunks_of(ts.skip(cap as int), cap)[i - 1]);
            }
        }
    }
}

/// The sections that splitting `text` under the bound `cap` must produce:
/// the decoded consecutive runs of its token sequence, or `None` when the
/// text cannot be tokenized or a run cannot be decoded.
pub open spec fn sections_spec(text: Seq<char>, cap: nat) -> Option<Seq<Seq<char>>> {
    match encoding_of(text) {
        None => None,
        Some(toks) => {
            let cs = chunks_of(toks, cap);
            if all_decodable(cs) {
                Some(Seq::new(cs.len(), |i: int| decoding_of(cs[i])->0))
            } else {
                None
            }
        },
    }
}

/// Splitting is deterministic: any two section lists that satisfy the
/// splitting contract for the same text and bound are equal, so re-running
/// the chunker never changes a document's sections.
pub proof fn lemma_split_deterministic(
    text: Seq<char>,
    cap: nat,
    r1: Seq<Seq<char>>,
    r2: Seq<Seq<char>>,
)
    requires
        Some(r1) == sections_spec(text, cap),
        Some(r2) == sections_spec(text, cap),
    ensures
        r1 == r2,
{
}

/// The tokens of `v` from `a` (inclusive) to `b` (exclusive).
fn subrange_tokens(v: &Vec<u32>, a: usize, b: usize) -> (r: Vec<u32>)
    requires
        a <= b <= v@.len(),
    ensures
        r@ == v@.subrange(a as int, b as int),
{
    let mut out: Vec<u32> = Vec::new();
    let mut i: usize = a;
    while i < b
        invariant
            a <= i <= b <= v@.len(),
            out@ == v@.subrange(a as int, i as int),
        decreases b - i,
    {
        out.push(v[i]);
        assert(v@.subrange(a as int, i + 1 as int) =~= v@.subrange(a as int, i as int).push(
            v@[i as int],
        ));
        i = i + 1;
    }
    out
}

/// Cuts `tokens` into consecutive runs of at most `cap` tokens.
pub fn split_tokens(tokens: &Vec<u32>, cap: usize) -> (r: Vec<Vec<u32>>)
    requires
        cap >= 1,
    ensures
        r@.map_values(|c: Vec<u32>| c@) == chunks_of(tokens@, cap as nat),
{
    let mut out: Vec<Vec<u32>> = Vec::new();
    let mut start: usize = 0;
    proof {
        assert(tokens@.skip(0) =~= tokens@);
        assert(out@.map_values(|c: Vec<u32>| c@) + chunks_of(tokens@, cap as nat) =~= chunks_of(
            tokens@,
            cap as nat,
        ));
    }
    while start < tokens.len()
        invariant
            cap >= 1,
            start <= tokens@.len(),
            out@.map_values(|c: Vec<u32>| c@) + chunks_of(tokens@.skip(start as int), cap as nat)
                == chunks_of(tokens@, cap as nat),
        decreases tokens@.len() - start,
    {
        let n = tokens.len();
        let end = if n - start <= cap {
            n
        } else {
            start + cap
        };
        let piece = subrange_tokens(tokens, start, end);
        let ghost prev = out@;
        let ghost rest = tokens@.skip(start as int);
        out.push(piece);
        proof {
            if rest.len() <= cap {
                assert(chunks_of(rest, cap as nat) =~= seq![rest]);
                assert(piece@ =~= rest);
            } else {
                assert(piece@ =~= rest.take(cap as int));
                assert(rest.skip(cap as int) =~= tokens@.skip(end as int));
            }
            assert(out@.map_values(|c: Vec<u32>| c@) =~= prev.map_values(|c: Vec<u32>| c@).push(
                piece@,
            ));
            assert(prev.map_values(|c: Vec<u32>| c@) + chunks_of(rest, cap as nat) =~= out@.map_values(
                |c: Vec<u32>| c@,
            ) + chunks_of(tokens@.skip(end as int), cap as nat));
        }
        start = end;
    }
    assert(tokens@.skip(tokens@.len() as int) =~= Seq::<u32>::empty());
    assert(out@.map_values(|c: Vec<u32>| c@) + Seq::<Seq<u32>>::empty() =~= out@.map_values(
        |c: Vec<u32>| c@,
    ));
    out
}

/// Splits `text` into sections whose encoded length does not exceed
/// `max_tokens`, by cutting its token sequence and decoding each run.
///
/// The result is a function of the input alone, so re-splitting the same
/// text under the same bound always yields the same sections. Joining the
/// returned sections in order reconstructs the input text exactly. Empty
/// text yields no sections; text of at most `max_tokens` tokens yields one
/// section equal to the input.
pub fn split_text_by_tokens(text: &str, max_tokens: usize) -> (r: Result<Vec<String>, SummaryError>)
    requires
        max_tokens >= 1,
    ensures
        sections_spec(text@, max_tokens as nat) is Some <==> r is Ok,
        r is Ok ==> Some(r->Ok_0@.map_values(|s: String| s@)) == sections_spec(
            text@,
            max_tokens as nat,
        ),
        r is Ok ==> r->Ok_0@.map_values(|s: String| s@).flatten() == text@,
        r is Err ==> r->Err_0 == SummaryError::Encoding,
        text@.len() == 0 && r is Ok ==> r->Ok_0@.len() == 0,
{
    let bpe = match new_tokenizer() {
        Ok(b) => b,
        Err(_) => {
            return Err(SummaryError::Encoding);
        },
    };
    let tokens = match encode_tokens(&bpe, text) {
        Ok(t) => t,
        Err(e) => {
            assert(sections_spec(text@, max_tokens as nat) is None);
            return Err(e);
        },
    };
    let chunks = split_tokens(&tokens, max_tokens);
    let ghost cs = chunks_of(tokens@, max_tokens as nat);
    let mut out: Vec<String> = Vec::new();
    let mut i: usize = 0;
    while i < chunks.len()
        invariant
            Some(tokens@) == encoding_of(text@),
            cs == chunks_of(tokens@, max_tokens as nat),
            cs == chunks@.map_values(|c: Vec<u32>| c@),
            i <= chunks@.len(),
            out@.len() == i,
            forall|j: int| 0 <= j < i ==> (#[trigger] decoding_of(cs[j])) is Some,
            forall|j: int| 0 <= j < i ==> Some(#[trigger] out@[j]@) == decoding_of(cs[j]),
        decreases chunks@.len() - i,
    {
        assert(cs[i as int] == chunks@[i as int]@);
        match decode_tokens(&bpe, &chunks[i]) {
            Ok(s) => {
                out.push(s);
            },
            Err(e) => {
                assert(!all_decodable(cs));
                assert(sections_spec(text@, max_tokens as nat) is None);
                return Err(e);
            },
        }
        i = i + 1;
    }
    proof {
        assert(all_decodable(cs));
        assert(out@.map_values(|s: String| s@) =~= Seq::new(cs.len(), |j: int| decoding_of(cs[j])->0));
        lemma_chunks_flatten(tokens@, max_tokens as nat);
        assert(cs.flatten() == tokens@);
        assert(decoded_join(cs) == text@);
        assert(out@.map_values(|s: String| s@).flatten() == decoded_join(cs));
        if text@.len() == 0 {
            assert(tokens@.len() == 0);
            assert(cs =~= Seq::<Seq<u32>>::empty());
        }
    }
    Ok(out)
}

} // verus!
