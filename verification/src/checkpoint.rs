//! The durable record of which pipeline stages have completed for one
//! document, and its canonical JSON encoding. Writing the file atomically
//! is the caller's concern; this module guarantees that the encoding is a
//! function of the state alone and that decoding inverts it.

use vstd::prelude::*;
use vstd::string::*;

use crate::num::{
    char_digit, dec_chars, dec_digits, lemma_dec_digits_wf, lemma_parse_number_round_trip,
    parse_number, parse_number_chars,
};
use crate::text::{
    chars_of, char_views, extend_chars, find_from, first_match_from, is_match_at, join_chars,
    join_with, lemma_first_match_from, split_on, split_on_chars, string_of, subrange_chars,
};

verus! {

broadcast use vstd::string::group_string_axioms;

/// Which stages of one document's processing have completed: image
/// extraction, text extraction, each chapter by its index, and the final
/// output assembly.
#[derive(Clone, Debug)]
pub struct ProcessingState {
    pub images_extracted: bool,
    pub text_extracted: bool,
    pub chapters_processed: Vec<usize>,
    pub epub_created: bool,
}

/// The mathematical content of a `ProcessingState`.
pub ghost struct StateModel {
    pub images_extracted: bool,
    pub text_extracted: bool,
    pub chapters_processed: Seq<usize>,
    pub epub_created: bool,
}

impl View for ProcessingState {
    type V = StateModel;

    open spec fn view(&self) -> StateModel {
        StateModel {
            images_extracted: self.images_extracted,
            text_extracted: self.text_extracted,
            chapters_processed: self.chapters_processed@,
            epub_created: self.epub_created,
        }
    }
}

/// The chapter list is kept strictly increasing, so each index appears at
/// most once and re-encoding a state is deterministic.
pub open spec fn chapters_sorted(cs: Seq<usize>) -> bool {
    forall|i: int, j: int|
        0 <= i < j < cs.len() ==> #[trigger] cs[i] < #[trigger] cs[j]
}

impl ProcessingState {
    /// A state with nothing done yet; what `load` yields when no checkpoint
    /// exists.
    pub fn new() -> (r: Self)
        ensures
            !r.images_extracted,
            !r.text_extracted,
            r.chapters_processed@ =~= Seq::<usize>::empty(),
            !r.epub_created,
            chapters_sorted(r.chapters_processed@),
    {
        ProcessingState {
            images_extracted: false,
            text_extracted: false,
            chapters_processed: Vec::new(),
            epub_created: false,
        }
    }

    /// Whether the chapter at `index` has already been processed.
    pub fn is_chapter_done(&self, index: usize) -> (r: bool)
        ensures
            r == self.chapters_processed@.contains(index),
    {
        let mut i: usize = 0;
        while i < self.chapters_processed.len()
            invariant
                i <= self.chapters_processed@.len(),
                forall|j: int| 0 <= j < i ==> self.chapters_processed@[j] != index,
            decreases self.chapters_processed@.len() - i,
        {
            if self.chapters_processed[i] == index {
                assert(self.chapters_processed@.contains(index));
                return true;
            }
            i = i + 1;
        }
        assert(!self.chapters_processed@.contains(index));
        false
    }

    /// Records the chapter at `index` as processed. The chapter list keeps
    /// its order; marking an already-processed chapter changes nothing.
    pub fn mark_chapter_done(&mut self, index: usize)
        requires
            chapters_sorted(old(self).chapters_processed@),
        ensures
            chapters_sorted(final(self).chapters_processed@),
            forall|x: usize| final(self).chapters_processed@.contains(x) <==> (old(
                self,
            ).chapters_processed@.contains(x) || x == index),
            final(self).images_extracted == old(self).images_extracted,
            final(self).text_extracted == old(self).text_extracted,
            final(self).epub_created == old(self).epub_created,
    {
        let ghost cs = old(self).chapters_processed@;
        let n = self.chapters_processed.len();
        let mut i: usize = 0;
        while i < n && self.chapters_processed[i] < index
            invariant
                self.chapters_processed@ == cs,
                self.images_extracted == old(self).images_extracted,
                self.text_extracted == old(self).text_extracted,
                self.epub_created == old(self).epub_created,
                chapters_sorted(cs),
                n == cs.len(),
                i <= n,
                forall|j: int| 0 <= j < i ==> cs[j] < index,
            decreases n - i,
        {
            i = i + 1;
        }
        if i < n && self.chapters_processed[i] == index {
            proof {
                assert(cs.contains(index));
            }
            return;
        }
        assert(i < n ==> cs[i as int] > index);
        self.chapters_processed.insert(i, index);
        proof {
            let ds = self.chapters_processed@;
            assert(ds =~= cs.take(i as int).push(index) + cs.skip(i as int));
            assert forall|p: int, q: int| 0 <= p < q < ds.len() implies #[trigger] ds[p]
                < #[trigger] ds[q] by {
                if q < i {
                    assert(ds[p] == cs[p] && ds[q] == cs[q]);
                } else if p < i && q == i {
                    assert(ds[p] == cs[p] && ds[q] == index);
                } else if p < i && q > i {
                    assert(ds[p] == cs[p] && ds[q] == cs[q - 1]);
                    assert(cs[p] < index);
                    assert(i <= q - 1 < cs.len());
                    if i < q - 1 {
                        assert(cs[i as int] < cs[q - 1]);
                    }
                    assert(index <= cs[q - 1]);
                } else if p == i {
                    assert(ds[p] == index && ds[q] == cs[q - 1]);
                    assert(i <= q - 1 < cs.len());
                    if i < q - 1 {
                        assert(cs[i as int] < cs[q - 1]);
                    }
                } else {
                    assert(ds[p] == cs[p - 1] && ds[q] == cs[q - 1]);
                }
            }
            assert forall|x: usize| ds.contains(x) <==> (cs.contains(x) || x == index) by {
                if ds.contains(x) {
                    let k = choose|k: int| 0 <= k < ds.len() && ds[k] == x;
                    if k < i {
                        assert(cs[k] == x);
                        assert(cs.contains(x));
                    } else if k == i {
                    } else {
                        assert(cs[k - 1] == x);
                        assert(cs.contains(x));
                    }
                }
                if cs.contains(x) {
                    let k = choose|k: int| 0 <= k < cs.len() && cs[k] == x;
                    if k < i {
                        assert(ds[k] == x);
                        assert(ds.contains(x));
                    } else {
                        assert(ds[k + 1] == x);
                        assert(ds.contains(x));
                    }
                }
                if x == index {
                    assert(ds[i as int] == x);
                    assert(ds.contains(x));
                }
            }
        }
    }

    /// The chapters below `total` that remain to be processed, in
    /// increasing order. A resumed run dispatches exactly these.
    pub fn remaining_chapters(&self, total: usize) -> (r: Vec<usize>)
        ensures
            chapters_sorted(r@),
            forall|x: usize| r@.contains(x) <==> (x < total && !self.chapters_processed@.contains(
                x,
            )),
    {
        let mut out: Vec<usize> = Vec::new();
        let mut i: usize = 0;
        while i < total
            invariant
                i <= total,
                chapters_sorted(out@),
                forall|k: int| 0 <= k < out@.len() ==> #[trigger] out@[k] < i,
                forall|x: usize| out@.contains(x) <==> (x < i
                    && !self.chapters_processed@.contains(x)),
            decreases total - i,
        {
            if !self.is_chapter_done(i) {
                let ghost prev = out@;
                out.push(i);
                proof {
                    assert forall|x: usize| out@.contains(x) implies (x < i + 1
                        && !self.chapters_processed@.contains(x)) by {
                        let k = choose|k: int| 0 <= k < out@.len() && out@[k] == x;
                        if k < prev.len() {
                            assert(prev[k] == x);
                            assert(prev.contains(x));
                        }
                    }
                    assert forall|x: usize| (x < i + 1 && !self.chapters_processed@.contains(x))
                        implies out@.contains(x) by {
                        if x < i {
                            assert(prev.contains(x));
                            let k = choose|k: int| 0 <= k < prev.len() && prev[k] == x;
                            assert(out@[k] == x);
                        } else {
                            assert(out@[out@.len() - 1] == x);
                        }
                    }
                }
            } else {
                proof {
                    assert forall|x: usize| out@.contains(x) implies (x < i + 1
                        && !self.chapters_processed@.contains(x)) by {}
                    assert forall|x: usize| (x < i + 1 && !self.chapters_processed@.contains(x))
                        implies out@.contains(x) by {
                        assert(x != i);
                    }
                }
            }
            i = i + 1;
        }
        out
    }
}

/// Two strictly increasing chapter lists with the same members are equal:
/// the sortedness and membership clauses of this module's contracts pin
/// each list completely.
pub proof fn lemma_sorted_same_members(a: Seq<usize>, b: Seq<usize>)
    requires
        chapters_sorted(a),
        chapters_sorted(b),
        forall|x: usize| a.contains(x) <==> b.contains(x),
    ensures
        a == b,
    decreases a.len(),
{
    if a.len() == 0 {
        if b.len() > 0 {
            assert(b.contains(b[0]));
            assert(a.contains(b[0]));
            assert(false);
        }
        assert(a =~= b);
    } else {
        assert(a.contains(a[0]));
        assert(b.contains(a[0]));
        assert(b.len() > 0);
        let k = choose|k: int| 0 <= k < b.len() && b[k] == a[0];
        if k > 0 {
            assert(b[0] < b[k]);
        }
        assert(a.contains(b[0]));
        let m = choose|m: int| 0 <= m < a.len() && a[m] == b[0];
        if m > 0 {
            assert(a[0] < a[m]);
        }
        assert(a[0] == b[0]);
        let at = a.drop_first();
        let bt = b.drop_first();
        assert forall|x: usize| at.contains(x) <==> bt.contains(x) by {
            if at.contains(x) {
                let i = choose|i: int| 0 <= i < at.len() && at[i] == x;
                assert(a[i + 1] == x);
                assert(a[0] < x);
                assert(b.contains(x));
                let j = choose|j: int| 0 <= j < b.len() && b[j] == x;
                assert(j != 0);
                assert(bt[j - 1] == x);
                assert(bt.contains(x));
            }
            if bt.contains(x) {
                let i = choose|i: int| 0 <= i < bt.len() && bt[i] == x;
                assert(b[i + 1] == x);
                assert(b[0] < x);
                assert(a.contains(x));
                let j = choose|j: int| 0 <= j < a.len() && a[j] == x;
                assert(j != 0);
                assert(at[j - 1] == x);
                assert(at.contains(x));
            }
        }
        assert forall|i: int, j: int| 0 <= i < j < at.len() implies #[trigger] at[i]
            < #[trigger] at[j] by {
            assert(at[i] == a[i + 1] && at[j] == a[j + 1]);
        }
        assert forall|i: int, j: int| 0 <= i < j < bt.len() implies #[trigger] bt[i]
            < #[trigger] bt[j] by {
            assert(bt[i] == b[i + 1] && bt[j] == b[j + 1]);
        }
        lemma_sorted_same_members(at, bt);
        assert forall|i: int| 0 <= i < a.len() implies a[i] == b[i] by {
            if i > 0 {
                assert(a[i] == at[i - 1] && b[i] == bt[i - 1]);
            }
        }
        assert(a =~= b);
    }
}

/// Every chapter below `total` is either already processed or among the
/// remaining ones, and never both: a resumed run covers exactly the
/// unfinished work and repeats none that is done.
pub proof fn lemma_resume_partition(state: ProcessingState, total: usize, remaining: Seq<usize>)
    requires
        forall|x: usize| remaining.contains(x) <==> (x < total
            && !state.chapters_processed@.contains(x)),
    ensures
        forall|x: usize| x < total ==> (state.chapters_processed@.contains(x) <==> !remaining.contains(
            x,
        )),
        forall|x: usize| !(state.chapters_processed@.contains(x) && remaining.contains(x)),
{
}

/// The canonical text of a flag.
pub open spec fn bool_text(b: bool) -> Seq<char> {
    if b {
        "true"@
    } else {
        "false"@
    }
}

/// The canonical text of the chapter list: the indices in decimal, joined
/// by commas.
pub open spec fn list_text(cs: Seq<usize>) -> Seq<char> {
    join_with(cs.map_values(|c: usize| dec_digits(c as nat)), seq![','])
}

/// The canonical JSON object that records a state.
pub open spec fn state_json(m: StateModel) -> Seq<char> {
    "{\"images_extracted\":"@ + bool_text(m.images_extracted) + ",\"text_extracted\":"@
        + bool_text(m.text_extracted) + ",\"chapters_processed\":["@ + list_text(
        m.chapters_processed,
    ) + "],\"epub_created\":"@ + bool_text(m.epub_created) + "}"@
}

/// Encodes a state as its canonical JSON object. The text is a function
/// of the state alone, so saving the same state twice writes the same
/// bytes.
pub fn encode_state(state: &ProcessingState) -> (r: String)
    ensures
        r@ == state_json(state@),
{
    let mut pieces: Vec<Vec<char>> = Vec::new();
    let mut i: usize = 0;
    while i < state.chapters_processed.len()
        invariant
            i <= state.chapters_processed@.len(),
            pieces@.len() == i,
            forall|j: int| 0 <= j < i ==> (#[trigger] pieces@[j])@ == dec_digits(
                state.chapters_processed@[j] as nat,
            ),
        decreases state.chapters_processed@.len() - i,
    {
        pieces.push(dec_chars(state.chapters_processed[i] as u64));
        i = i + 1;
    }
    assert(char_views(pieces@) =~~= state.chapters_processed@.map_values(
        |c: usize| dec_digits(c as nat),
    ));
    let mut comma: Vec<char> = Vec::new();
    comma.push(',');
    assert(comma@ =~= seq![',']);
    let list = join_chars(&pieces, &comma);

    let mut out = chars_of("{\"images_extracted\":");
    let t_lit = chars_of("true");
    let f_lit = chars_of("false");
    if state.images_extracted {
        extend_chars(&mut out, &t_lit);
    } else {
        extend_chars(&mut out, &f_lit);
    }
    let mid1 = chars_of(",\"text_extracted\":");
    extend_chars(&mut out, &mid1);
    if state.text_extracted {
        extend_chars(&mut out, &t_lit);
    } else {
        extend_chars(&mut out, &f_lit);
    }
    let mid2 = chars_of(",\"chapters_processed\":[");
    extend_chars(&mut out, &mid2);
    extend_chars(&mut out, &list);
    let mid3 = chars_of("],\"epub_created\":");
    extend_chars(&mut out, &mid3);
    if state.epub_created {
        extend_chars(&mut out, &t_lit);
    } else {
        extend_chars(&mut out, &f_lit);
    }
    let close = chars_of("}");
    extend_chars(&mut out, &close);
    proof {
        assert(out@ =~= state_json(state@));
    }
    string_of(&out)
}

/// The remainder of `s` after the literal `lit`, or `None` when `s` does
/// not begin with it.
pub open spec fn expect(s: Seq<char>, lit: Seq<char>) -> Option<Seq<char>> {
    if s.len() >= lit.len() && s.take(lit.len() as int) == lit {
        Some(s.skip(lit.len() as int))
    } else {
        None
    }
}

/// A flag read from the front of `s`, with the remainder.
pub open spec fn parse_bool_text(s: Seq<char>) -> Option<(bool, Seq<char>)> {
    match expect(s, "true"@) {
        Some(r) => Some((true, r)),
        None => match expect(s, "false"@) {
            Some(r) => Some((false, r)),
            None => None,
        },
    }
}

/// The value of one chapter-list piece: a whole canonical number and
/// nothing else.
pub open spec fn piece_value(p: Seq<char>) -> Option<usize> {
    match parse_number(p) {
        Some((v, rest)) => if rest.len() == 0 {
            Some(v as usize)
        } else {
            None
        },
        None => None,
    }
}

/// The values of the chapter-list body: comma-separated canonical numbers,
/// or the empty list for an empty body.
pub open spec fn list_values(body: Seq<char>) -> Option<Seq<usize>> {
    if body.len() == 0 {
        Some(Seq::empty())
    } else {
        let pieces = split_on(body, ","@);
        if forall|i: int| 0 <= i < pieces.len() ==> (#[trigger] piece_value(pieces[i])) is Some {
            Some(Seq::new(pieces.len(), |i: int| piece_value(pieces[i])->0))
        } else {
            None
        }
    }
}

/// The state recorded in a canonical checkpoint text, or `None` when the
/// text is not of that exact shape.
pub open spec fn decoded_state(s: Seq<char>) -> Option<StateModel> {
    match expect(s, "{\"images_extracted\":"@) {
        None => None,
        Some(s1) => match parse_bool_text(s1) {
            None => None,
            Some((img, s2)) => match expect(s2, ",\"text_extracted\":"@) {
                None => None,
                Some(s3) => match parse_bool_text(s3) {
                    None => None,
                    Some((txt, s4)) => match expect(s4, ",\"chapters_processed\":["@) {
                        None => None,
                        Some(s5) => match first_match_from(s5, "]"@, 0) {
                            None => None,
                            Some(p) => match list_values(s5.take(p)) {
                                None => None,
                                Some(cs) => match expect(s5.skip(p), "],\"epub_created\":"@) {
                                    None => None,
                                    Some(s6) => match parse_bool_text(s6) {
                                        None => None,
                                        Some((ep, s7)) => if s7 == "}"@ {
                                            Some(
                                                StateModel {
                                                    images_extracted: img,
                                                    text_extracted: txt,
                                                    chapters_processed: cs,
                                                    epub_created: ep,
                                                },
                                            )
                                        } else {
                                            None
                                        },
                                    },
                                },
                            },
                        },
                    },
                },
            },
        },
    }
}

/// A literal at the front of exactly itself plus a remainder leaves that
/// remainder.
proof fn lemma_expect_concat(lit: Seq<char>, rest: Seq<char>)
    ensures
        expect(lit + rest, lit) == Some(rest),
{
    assert((lit + rest).take(lit.len() as int) =~= lit);
    assert((lit + rest).skip(lit.len() as int) =~= rest);
}

/// Reading a printed flag back yields the flag and the remainder.
proof fn lemma_parse_bool_round(b: bool, rest: Seq<char>)
    ensures
        parse_bool_text(bool_text(b) + rest) == Some((b, rest)),
{
    reveal_strlit("true");
    reveal_strlit("false");
    assert("true"@.len() == 4);
    assert("false"@.len() == 5);
    lemma_expect_concat(bool_text(b), rest);
    if b {
    } else {
        let s = bool_text(false) + rest;
        assert(s.len() >= 5);
        if s.take(4) == "true"@ {
            assert(s.take(4)[0] == "false"@[0]);
            assert("false"@[0] == 'f' && "true"@[0] == 't');
            assert(false);
        }
    }
}

/// Whether a character may appear inside a printed chapter list.
pub open spec fn is_list_char(c: char) -> bool {
    char_digit(c) is Some || c == ','
}

/// A joined chapter list holds digits and commas only.
proof fn lemma_list_text_chars(cs: Seq<usize>)
    ensures
        forall|k: int| 0 <= k < list_text(cs).len() ==> is_list_char(#[trigger] list_text(cs)[k]),
    decreases cs.len(),
{
    let parts = cs.map_values(|c: usize| dec_digits(c as nat));
    if cs.len() == 0 {
    } else if cs.len() == 1 {
        lemma_dec_digits_wf(cs[0] as nat);
        assert(list_text(cs) == parts[0]);
    } else {
        lemma_dec_digits_wf(cs[0] as nat);
        lemma_list_text_chars(cs.drop_first());
        assert(parts.drop_first() =~= cs.drop_first().map_values(|c: usize| dec_digits(c as nat)));
        assert(list_text(cs) == parts[0] + seq![','] + join_with(parts.drop_first(), seq![',']));
        let whole = list_text(cs);
        let p0 = parts[0];
        let tail = join_with(parts.drop_first(), seq![',']);
        assert forall|k: int| 0 <= k < whole.len() implies is_list_char(#[trigger] whole[k]) by {
            if k < p0.len() {
                assert(whole[k] == p0[k]);
                assert(p0[k] == dec_digits(cs[0] as nat)[k]);
            } else if k == p0.len() {
                assert(whole[k] == ',');
            } else {
                assert(whole[k] == tail[k - p0.len() - 1]);
                assert(tail == list_text(cs.drop_first()));
            }
        }
    }
}

/// For a one-character pattern, a match is just that character.
proof fn lemma_single_char_match(s: Seq<char>, pat: Seq<char>, k: int)
    requires
        pat.len() == 1,
    ensures
        is_match_at(s, pat, k) <==> (0 <= k < s.len() && s[k] == pat[0]),
{
    if 0 <= k < s.len() {
        if s[k] == pat[0] {
            assert(s.subrange(k, k + 1) =~= pat);
        }
        if is_match_at(s, pat, k) {
            assert(s.subrange(k, k + 1)[0] == s[k]);
        }
    }
}

/// Splitting a comma-joined list of comma-free, non-empty pieces gives
/// back the pieces.
proof fn lemma_split_join(parts: Seq<Seq<char>>, sep: Seq<char>)
    requires
        sep.len() == 1,
        parts.len() >= 1,
        forall|i: int, k: int|
            0 <= i < parts.len() && 0 <= k < parts[i].len() ==> #[trigger] parts[i][k] != sep[0],
    ensures
        split_on(join_with(parts, sep), sep) == parts,
    decreases parts.len(),
{
    let joined = join_with(parts, sep);
    lemma_first_match_from(joined, sep, 0);
    if parts.len() == 1 {
        assert(joined == parts[0]);
        match first_match_from(joined, sep, 0) {
            None => {
                assert(split_on(joined, sep) =~= parts);
            },
            Some(i) => {
                lemma_single_char_match(joined, sep, i);
                assert(false);
            },
        }
    } else {
        let p0 = parts[0];
        let tail = join_with(parts.drop_first(), sep);
        assert(joined == p0 + sep + tail);
        assert forall|k: int| 0 <= k < p0.len() implies !is_match_at(joined, sep, k) by {
            lemma_single_char_match(joined, sep, k);
            assert(joined[k] == p0[k]);
        }
        assert(is_match_at(joined, sep, p0.len() as int)) by {
            lemma_single_char_match(joined, sep, p0.len() as int);
            assert(joined[p0.len() as int] == sep[0]);
        }
        match first_match_from(joined, sep, 0) {
            None => {
                assert(false);
            },
            Some(i) => {
                assert(i <= p0.len());
                assert(i >= p0.len());
                assert(split_on(joined, sep) == seq![joined.take(i)] + split_on(
                    joined.skip(i + 1),
                    sep,
                ));
                assert(joined.take(p0.len() as int) =~= p0);
                assert(joined.skip(p0.len() + 1 as int) =~= tail);
                lemma_split_join(parts.drop_first(), sep);
                assert(seq![p0] + parts.drop_first() =~= parts);
            },
        }
    }
}

/// Reading a printed chapter list back yields the chapters.
proof fn lemma_list_values_round(cs: Seq<usize>)
    ensures
        list_values(list_text(cs)) == Some(cs),
{
    let body = list_text(cs);
    if cs.len() == 0 {
        assert(cs.map_values(|c: usize| dec_digits(c as nat)).len() == 0);
        assert(body.len() == 0);
        assert(list_values(body) == Some(Seq::<usize>::empty()));
        assert(Seq::<usize>::empty() =~= cs);
    } else {
        let parts = cs.map_values(|c: usize| dec_digits(c as nat));
        assert forall|i: int, k: int|
            0 <= i < parts.len() && 0 <= k < parts[i].len() implies #[trigger] parts[i][k] != ','
        by {
            lemma_dec_digits_wf(cs[i] as nat);
            assert(parts[i] == dec_digits(cs[i] as nat));
            assert(char_digit(parts[i][k]) is Some);
        }
        assert(seq![','].len() == 1);
        lemma_split_join(parts, seq![',']);
        assert(body.len() > 0) by {
            lemma_dec_digits_wf(cs[0] as nat);
            if cs.len() == 1 {
                assert(body == parts[0]);
            } else {
                assert(body == parts[0] + seq![','] + join_with(parts.drop_first(), seq![',']));
            }
            assert(parts[0].len() >= 1);
        }
        assert(split_on(body, ","@) == parts) by {
            reveal_strlit(",");
            assert(","@.len() == 1);
            assert(","@[0] == ',');
            assert(","@ =~= seq![',']);
        }
        assert forall|i: int| 0 <= i < parts.len() implies (#[trigger] piece_value(parts[i]))
            == Some(cs[i]) by {
            lemma_parse_number_round_trip(cs[i] as nat, Seq::empty());
            assert(dec_digits(cs[i] as nat) + Seq::<char>::empty() =~= dec_digits(cs[i] as nat));
            assert(parse_number(parts[i]) == Some((cs[i] as nat, Seq::<char>::empty())));
        }
        assert(list_values(body) is Some);
        assert(list_values(body)->0 =~= cs);
    }
}

/// The text that follows the epub flag in a canonical checkpoint.
spec fn rt_t6(m: StateModel) -> Seq<char> {
    bool_text(m.epub_created) + "}"@
}

/// The text from the closing bracket of the chapter list onwards.
spec fn rt_tail4(m: StateModel) -> Seq<char> {
    "],\"epub_created\":"@ + rt_t6(m)
}

/// The text from the chapter-list body onwards.
spec fn rt_t5(m: StateModel) -> Seq<char> {
    list_text(m.chapters_processed) + rt_tail4(m)
}

/// The text from the chapter-list opener onwards.
spec fn rt_t4(m: StateModel) -> Seq<char> {
    ",\"chapters_processed\":["@ + rt_t5(m)
}

/// The text from the text-extraction flag onwards.
spec fn rt_t3(m: StateModel) -> Seq<char> {
    bool_text(m.text_extracted) + rt_t4(m)
}

/// The text from the second field label onwards.
spec fn rt_t2(m: StateModel) -> Seq<char> {
    ",\"text_extracted\":"@ + rt_t3(m)
}

/// The text from the image-extraction flag onwards.
spec fn rt_t1(m: StateModel) -> Seq<char> {
    bool_text(m.images_extracted) + rt_t2(m)
}

/// A canonical checkpoint text is its leading label plus the rest.
#[verifier::rlimit(100)]
proof fn lemma_rt_assoc(m: StateModel)
    ensures
        state_json(m) == "{\"images_extracted\":"@ + rt_t1(m),
{
    assert(state_json(m) =~= "{\"images_extracted\":"@ + rt_t1(m));
}

/// The chapter-list body of a canonical checkpoint ends at the first
/// closing bracket, which the codec then reads past.
proof fn lemma_rt_list(m: StateModel)
    ensures
        first_match_from(rt_t5(m), "]"@, 0) == Some(list_text(m.chapters_processed).len() as int),
        rt_t5(m).take(list_text(m.chapters_processed).len() as int) == list_text(
            m.chapters_processed,
        ),
        rt_t5(m).skip(list_text(m.chapters_processed).len() as int) == rt_tail4(m),
{
    reveal_strlit("],\"epub_created\":");
    reveal_strlit("]");
    let body = list_text(m.chapters_processed);
    let t5 = rt_t5(m);
    lemma_list_text_chars(m.chapters_processed);
    lemma_first_match_from(t5, "]"@, 0);
    assert("]"@.len() == 1);
    assert forall|k: int| 0 <= k < body.len() implies !is_match_at(t5, "]"@, k) by {
        lemma_single_char_match(t5, "]"@, k);
        assert(t5[k] == body[k]);
        assert(is_list_char(body[k]));
        assert("]"@[0] == ']');
    }
    assert(is_match_at(t5, "]"@, body.len() as int)) by {
        lemma_single_char_match(t5, "]"@, body.len() as int);
        assert(t5[body.len() as int] == rt_tail4(m)[0]);
        assert(rt_tail4(m)[0] == ']');
    }
    match first_match_from(t5, "]"@, 0) {
        None => {
            assert(false);
        },
        Some(p) => {
            assert(p <= body.len());
            assert(p >= body.len());
        },
    }
    assert(t5.take(body.len() as int) =~= body);
    assert(t5.skip(body.len() as int) =~= rt_tail4(m));
}

/// Decoding a saved state yields that state again: the checkpoint codec
/// loses nothing, and saving the same state twice writes identical text,
/// so a reload after either save reads an equal state.
pub proof fn lemma_state_round_trip(m: StateModel)
    ensures
        decoded_state(state_json(m)) == Some(m),
{
    reveal_strlit("}");
    lemma_rt_assoc(m);
    lemma_expect_concat("{\"images_extracted\":"@, rt_t1(m));
    lemma_parse_bool_round(m.images_extracted, rt_t2(m));
    lemma_expect_concat(",\"text_extracted\":"@, rt_t3(m));
    lemma_parse_bool_round(m.text_extracted, rt_t4(m));
    lemma_expect_concat(",\"chapters_processed\":["@, rt_t5(m));
    lemma_rt_list(m);
    lemma_list_values_round(m.chapters_processed);
    lemma_expect_concat("],\"epub_created\":"@, rt_t6(m));
    lemma_parse_bool_round(m.epub_created, "}"@);
}

/// Reads the literal `lit` at position `pos` of `v`; returns the position
/// just after it.
fn expect_at(v: &Vec<char>, pos: usize, lit: &Vec<char>) -> (r: Option<usize>)
    requires
        pos <= v@.len(),
    ensures
        r is Some <==> expect(v@.skip(pos as int), lit@) is Some,
        r is Some ==> pos <= r->0 <= v@.len() && expect(v@.skip(pos as int), lit@) == Some(
            v@.skip(r->0 as int),
        ),
{
    let n = v.len();
    if crate::text::match_at(v, lit, pos) {
        assert(v@.skip(pos as int).take(lit@.len() as int) =~= v@.subrange(
            pos as int,
            pos + lit@.len(),
        ));
        assert(v@.skip(pos as int).skip(lit@.len() as int) =~= v@.skip(pos + lit@.len()));
        Some(pos + lit.len())
    } else {
        assert(expect(v@.skip(pos as int), lit@) is None) by {
            if v@.skip(pos as int).len() >= lit@.len() && v@.skip(pos as int).take(
                lit@.len() as int,
            ) == lit@ {
                assert(v@.skip(pos as int).take(lit@.len() as int) =~= v@.subrange(
                    pos as int,
                    pos + lit@.len(),
                ));
            }
        }
        None
    }
}

/// Reads a flag at position `pos` of `v`; returns it with the position
/// just after it.
fn parse_bool_at(v: &Vec<char>, pos: usize) -> (r: Option<(bool, usize)>)
    requires
        pos <= v@.len(),
    ensures
        r is Some <==> parse_bool_text(v@.skip(pos as int)) is Some,
        r is Some ==> pos <= (r->0).1 <= v@.len() && parse_bool_text(v@.skip(pos as int)) == Some(
            ((r->0).0, v@.skip((r->0).1 as int)),
        ),
{
    let t_lit = chars_of("true");
    let f_lit = chars_of("false");
    match expect_at(v, pos, &t_lit) {
        Some(np) => Some((true, np)),
        None => match expect_at(v, pos, &f_lit) {
            Some(np) => Some((false, np)),
            None => None,
        },
    }
}

/// Reads the values of a chapter-list body, as `list_values` describes.
fn parse_list_body(body: &Vec<char>) -> (r: Option<Vec<usize>>)
    ensures
        r is Some <==> list_values(body@) is Some,
        r is Some ==> Some(r->0@) == list_values(body@),
{
    let mut chapters: Vec<usize> = Vec::new();
    if body.len() == 0 {
        assert(list_values(body@) == Some(Seq::<usize>::empty()));
        assert(chapters@ =~= Seq::<usize>::empty());
        return Some(chapters);
    }
    let comma = chars_of(",");
    let pieces = split_on_chars(body, &comma);
    let ghost sps = split_on(body@, ","@);
    let mut i: usize = 0;
    while i < pieces.len()
        invariant
            body@.len() > 0,
            char_views(pieces@) == sps,
            sps == split_on(body@, ","@),
            i <= pieces@.len(),
            chapters@.len() == i,
            forall|j: int| 0 <= j < i ==> (#[trigger] piece_value(sps[j])) == Some(chapters@[j]),
        decreases pieces@.len() - i,
    {
        assert(pieces@[i as int]@ == sps[i as int]);
        let piece = &pieces[i];
        assert(piece@.skip(0) =~= piece@);
        match parse_number_chars(piece, 0) {
            Some((value, end)) => {
                if end != piece.len() {
                    assert(piece_value(sps[i as int]) is None) by {
                        assert(piece@.skip(end as int).len() > 0);
                    }
                    assert(list_values(body@) is None);
                    return None;
                }
                assert(piece@.skip(end as int).len() == 0);
                chapters.push(value);
            },
            None => {
                assert(piece_value(sps[i as int]) is None);
                assert(list_values(body@) is None);
                return None;
            },
        }
        i = i + 1;
    }
    proof {
        assert(forall|j: int| 0 <= j < sps.len() ==> (#[trigger] piece_value(sps[j])) is Some);
        assert(list_values(body@) is Some);
        assert(list_values(body@)->0 =~= chapters@);
    }
    Some(chapters)
}

/// Decodes a checkpoint text, as `decoded_state` describes: only the
/// canonical shape that `encode_state` writes is accepted.
pub fn decode_state(text: &str) -> (r: Option<ProcessingState>)
    ensures
        r is Some <==> decoded_state(text@) is Some,
        r is Some ==> Some(r->0@) == decoded_state(text@),
{
    let v = chars_of(text);
    assert(v@.skip(0) =~= v@);
    let l1 = chars_of("{\"images_extracted\":");
    let p1 = match expect_at(&v, 0, &l1) {
        Some(p) => p,
        None => {
            return None;
        },
    };
    let (images_extracted, p2): (bool, usize) = match parse_bool_at(&v, p1) {
        Some(b) => b,
        None => {
            return None;
        },
    };
    let l2 = chars_of(",\"text_extracted\":");
    let p3 = match expect_at(&v, p2, &l2) {
        Some(p) => p,
        None => {
            return None;
        },
    };
    let (text_extracted, p4): (bool, usize) = match parse_bool_at(&v, p3) {
        Some(b) => b,
        None => {
            return None;
        },
    };
    let l3 = chars_of(",\"chapters_processed\":[");
    let p5 = match expect_at(&v, p4, &l3) {
        Some(p) => p,
        None => {
            return None;
        },
    };
    let ghost s5 = v@.skip(p5 as int);
    let rb = chars_of("]");
    let close_pos = match find_from(&v, &rb, p5) {
        Some(p) => p,
        None => {
            proof {
                crate::text::lemma_first_match_shift(v@, "]"@, p5 as nat);
            }
            return None;
        },
    };
    proof {
        crate::text::lemma_first_match_shift(v@, "]"@, p5 as nat);
        assert(first_match_from(s5, "]"@, 0) == Some(close_pos - p5 as int));
    }
    let ghost body = s5.take(close_pos - p5 as int);
    let body_vec = subrange_chars(&v, p5, close_pos);
    assert(body =~= body_vec@);
    let chapters = match parse_list_body(&body_vec) {
        Some(cs) => cs,
        None => {
            return None;
        },
    };
    let l4 = chars_of("],\"epub_created\":");
    let p6 = match expect_at(&v, close_pos, &l4) {
        Some(p) => p,
        None => {
            assert(v@.skip(close_pos as int) =~= s5.skip(close_pos - p5 as int));
            return None;
        },
    };
    assert(v@.skip(close_pos as int) =~= s5.skip(close_pos - p5 as int));
    let (epub_created, p7): (bool, usize) = match parse_bool_at(&v, p6) {
        Some(b) => b,
        None => {
            return None;
        },
    };
    let l5 = chars_of("}");
    let tail = subrange_chars(&v, p7, v.len());
    if !crate::text::chars_eq(&tail, &l5) {
        assert(v@.skip(p7 as int) != "}"@);
        return None;
    }
    assert(v@.skip(p7 as int) == "}"@);
    let state = ProcessingState { images_extracted, text_extracted, chapters_processed: chapters, epub_created };
    proof {
        assert(decoded_state(text@) is Some);
        assert(decoded_state(text@)->0.chapters_processed == state@.chapters_processed);
    }
    Some(state)
}

/// The name under which a document's checkpoint and output are kept: its
/// name made filesystem-safe. The same result on every platform, so a
/// checkpoint written on one machine resumes on another.
pub uninterp spec fn sanitized_of(s: Seq<char>) -> Seq<char>;

/// Relies on `sanitize_filename::sanitize_with_options` with fixed
/// options (Windows reserved names handled, truncation on, empty
/// replacement): maps a document name to a filesystem-safe name. With the
/// options pinned, the result depends on the name alone.
#[verifier::external_body]
pub(crate) fn sanitize_name(name: &str) -> (r: String)
    ensures
        r@ == sanitized_of(name@),
{
    sanitize_filename::sanitize_with_options(
        name,
        sanitize_filename::Options { windows: true, truncate: true, replacement: "" },
    )
}

/// The checkpoint file name for a document: its sanitized name with a
/// `.json` suffix.
pub fn checkpoint_file_name(document_name: &str) -> (r: String)
    ensures
        r@ == sanitized_of(document_name@) + ".json"@,
{
    let mut out = sanitize_name(document_name);
    out.append(".json");
    out
}

} // verus!
