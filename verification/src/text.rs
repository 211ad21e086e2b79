//! Character-sequence utilities shared by the parser, the plan splitter,
//! the prompt builder and the checkpoint codec.
//!
//! Text is processed as `Vec<char>` so that every step is plain verified
//! code; conversion to and from `String` happens at the edges.

use vstd::prelude::*;
use vstd::string::*;

verus! {

/// Unicode whitespace: the `White_Space` characters, the same set that
/// `str::trim` removes.
pub open spec fn is_space_char(c: char) -> bool {
    c == '\u{0009}' || c == '\u{000A}' || c == '\u{000B}' || c == '\u{000C}' || c == '\u{000D}'
        || c == '\u{0020}' || c == '\u{0085}' || c == '\u{00A0}' || c == '\u{1680}' || (
    '\u{2000}' <= c && c <= '\u{200A}') || c == '\u{2028}' || c == '\u{2029}' || c == '\u{202F}'
        || c == '\u{205F}' || c == '\u{3000}'
}

/// `s` with its leading whitespace removed.
pub open spec fn trim_start_spec(s: Seq<char>) -> Seq<char>
    decreases s.len(),
{
    if s.len() > 0 && is_space_char(s[0]) {
        trim_start_spec(s.drop_first())
    } else {
        s
    }
}

/// `s` with its trailing whitespace removed.
pub open spec fn trim_end_spec(s: Seq<char>) -> Seq<char>
    decreases s.len(),
{
    if s.len() > 0 && is_space_char(s[s.len() - 1]) {
        trim_end_spec(s.drop_last())
    } else {
        s
    }
}

/// `s` with leading and trailing whitespace removed.
pub open spec fn trim_spec(s: Seq<char>) -> Seq<char> {
    trim_end_spec(trim_start_spec(s))
}

/// Whether `s` is empty or consists of whitespace only.
pub open spec fn is_blank(s: Seq<char>) -> bool {
    trim_spec(s).len() == 0
}

/// Whether `pat` occurs in `s` starting at position `i`.
pub open spec fn is_match_at(s: Seq<char>, pat: Seq<char>, i: int) -> bool {
    0 <= i && i + pat.len() <= s.len() && s.subrange(i, i + pat.len()) == pat
}

/// The first position `>= from` at which `pat` occurs in `s`, if any.
pub open spec fn first_match_from(s: Seq<char>, pat: Seq<char>, from: nat) -> Option<int>
    decreases s.len() + 1 - from,
{
    if from + pat.len() > s.len() {
        None
    } else if is_match_at(s, pat, from as int) {
        Some(from as int)
    } else {
        first_match_from(s, pat, (from + 1) as nat)
    }
}

/// `first_match_from` returns the least match position at or after `from`,
/// or `None` when there is none.
pub proof fn lemma_first_match_from(s: Seq<char>, pat: Seq<char>, from: nat)
    ensures
        match first_match_from(s, pat, from) {
            Some(i) => is_match_at(s, pat, i) && from <= i && forall|j: int|
                from <= j < i ==> !is_match_at(s, pat, j),
            None => forall|j: int| from <= j ==> !is_match_at(s, pat, j),
        },
    decreases s.len() + 1 - from,
{
    if from + pat.len() > s.len() {
    } else if is_match_at(s, pat, from as int) {
    } else {
        lemma_first_match_from(s, pat, (from + 1) as nat);
    }
}

/// Searching from `c` in `s` is searching from the start of `s` without
/// its first `c` characters.
pub proof fn lemma_first_match_shift(s: Seq<char>, pat: Seq<char>, c: nat)
    requires
        c <= s.len(),
    ensures
        match first_match_from(s, pat, c) {
            None => first_match_from(s.skip(c as int), pat, 0) is None,
            Some(i) => first_match_from(s.skip(c as int), pat, 0) == Some(i - c),
        },
{
    lemma_first_match_from(s, pat, c);
    lemma_first_match_from(s.skip(c as int), pat, 0);
    assert forall|k: int| 0 <= k implies (is_match_at(s.skip(c as int), pat, k) <==> is_match_at(
        s,
        pat,
        c + k,
    )) by {
        if k + pat.len() <= s.len() - c {
            assert(s.skip(c as int).subrange(k, k + pat.len() as int) =~= s.subrange(
                c + k,
                c + k + pat.len() as int,
            ));
        }
    }
    match first_match_from(s, pat, c) {
        None => {
            if first_match_from(s.skip(c as int), pat, 0) is Some {
                let j = first_match_from(s.skip(c as int), pat, 0)->0;
                assert(is_match_at(s, pat, c + j));
            }
        },
        Some(i) => {
            assert(is_match_at(s.skip(c as int), pat, i - c));
            match first_match_from(s.skip(c as int), pat, 0) {
                None => {
                    assert(false);
                },
                Some(j) => {
                    if j < i - c {
                        assert(is_match_at(s, pat, c + j));
                        assert(false);
                    }
                    if j > i - c {
                        assert(false);
                    }
                },
            }
        },
    }
}

/// The pieces of `s` between non-overlapping occurrences of `pat`, scanned
/// left to right. With an empty or absent `pat` the result is `s` whole.
pub open spec fn split_on(s: Seq<char>, pat: Seq<char>) -> Seq<Seq<char>>
    decreases s.len(),
    via split_on_decreases
{
    if pat.len() == 0 {
        seq![s]
    } else {
        match first_match_from(s, pat, 0) {
            None => seq![s],
            Some(i) => seq![s.take(i)] + split_on(s.skip(i + pat.len() as int), pat),
        }
    }
}

#[via_fn]
proof fn split_on_decreases(s: Seq<char>, pat: Seq<char>) {
    if pat.len() > 0 {
        lemma_first_match_from(s, pat, 0);
    }
}

/// `s` with every non-overlapping occurrence of `pat`, scanned left to
/// right, replaced by `repl`. With an empty `pat` the result is `s`.
pub open spec fn replace_all_spec(s: Seq<char>, pat: Seq<char>, repl: Seq<char>) -> Seq<char>
    decreases s.len(),
    via replace_all_decreases
{
    if pat.len() == 0 {
        s
    } else {
        match first_match_from(s, pat, 0) {
            None => s,
            Some(i) => s.take(i) + repl + replace_all_spec(s.skip(i + pat.len() as int), pat, repl),
        }
    }
}

#[via_fn]
proof fn replace_all_decreases(s: Seq<char>, pat: Seq<char>, repl: Seq<char>) {
    if pat.len() > 0 {
        lemma_first_match_from(s, pat, 0);
    }
}

/// The elements of `parts` concatenated with `sep` between them.
pub open spec fn join_with(parts: Seq<Seq<char>>, sep: Seq<char>) -> Seq<char>
    decreases parts.len(),
{
    if parts.len() == 0 {
        Seq::empty()
    } else if parts.len() == 1 {
        parts[0]
    } else {
        parts[0] + sep + join_with(parts.drop_first(), sep)
    }
}

/// Appending one part extends a join by a separator and that part.
pub proof fn lemma_join_push(parts: Seq<Seq<char>>, sep: Seq<char>, p: Seq<char>)
    ensures
        join_with(parts.push(p), sep) == if parts.len() == 0 {
            p
        } else {
            join_with(parts, sep) + sep + p
        },
    decreases parts.len(),
{
    if parts.len() == 0 {
        assert(parts.push(p) =~= seq![p]);
        assert(join_with(seq![p], sep) == p);
    } else {
        assert(parts.push(p).drop_first() =~= parts.drop_first().push(p));
        assert(parts.push(p)[0] == parts[0]);
        lemma_join_push(parts.drop_first(), sep, p);
        if parts.len() == 1 {
            assert(parts.drop_first().len() == 0);
            assert(join_with(parts.push(p), sep) == parts[0] + sep + p);
            assert(join_with(parts, sep) == parts[0]);
        } else {
            assert(join_with(parts.push(p), sep) == parts[0] + sep + (join_with(
                parts.drop_first(),
                sep,
            ) + sep + p));
            assert(parts[0] + sep + (join_with(parts.drop_first(), sep) + sep + p) =~= (parts[0]
                + sep + join_with(parts.drop_first(), sep)) + sep + p);
        }
    }
}

/// The views of a sequence of character vectors.
pub open spec fn char_views(vs: Seq<Vec<char>>) -> Seq<Seq<char>> {
    vs.map_values(|v: Vec<char>| v@)
}

/// The views of a sequence of strings.
pub open spec fn str_views(es: Seq<String>) -> Seq<Seq<char>> {
    es.map_values(|s: String| s@)
}

/// The character vectors of a vector of strings.
pub fn strs_to_char_vecs(es: &Vec<String>) -> (r: Vec<Vec<char>>)
    ensures
        char_views(r@) == str_views(es@),
{
    let mut out: Vec<Vec<char>> = Vec::new();
    let mut i: usize = 0;
    while i < es.len()
        invariant
            i <= es@.len(),
            out@.len() == i,
            forall|j: int| 0 <= j < i ==> (#[trigger] out@[j])@ == es@[j]@,
        decreases es@.len() - i,
    {
        out.push(chars_of(es[i].as_str()));
        i = i + 1;
    }
    assert(char_views(out@) =~~= str_views(es@));
    out
}

/// The characters of `s`, in order.
pub fn chars_of(s: &str) -> (r: Vec<char>)
    ensures
        r@ == s@,
{
    let n = s.unicode_len();
    let mut out: Vec<char> = Vec::new();
    let mut i: usize = 0;
    while i < n
        invariant
            n == s@.len(),
            i <= n,
            out@ == s@.take(i as int),
        decreases n - i,
    {
        out.push(s.get_char(i));
        assert(s@.take(i + 1 as int) =~= s@.take(i as int).push(s@[i as int]));
        i = i + 1;
    }
    assert(s@.take(n as int) =~= s@);
    out
}

/// Relies on `String::push` from std: appends the given character to the
/// end of the string.
#[verifier::external_body]
pub(crate) fn push_char(s: &mut String, c: char)
    ensures
        final(s)@ == old(s)@.push(c),
{
    s.push(c);
}

/// A `String` holding exactly the characters of `cs`.
pub fn string_of(cs: &Vec<char>) -> (r: String)
    ensures
        r@ == cs@,
{
    let mut out = String::new();
    let mut i: usize = 0;
    while i < cs.len()
        invariant
            i <= cs.len(),
            out@ == cs@.take(i as int),
        decreases cs.len() - i,
    {
        push_char(&mut out, cs[i]);
        assert(cs@.take(i + 1 as int) =~= cs@.take(i as int).push(cs@[i as int]));
        i = i + 1;
    }
    assert(cs@.take(cs.len() as int) =~= cs@);
    out
}

/// Whether two string slices hold the same characters.
pub fn str_eq(a: &str, b: &str) -> (r: bool)
    ensures
        r == (a@ == b@),
{
    let na = a.unicode_len();
    let nb = b.unicode_len();
    if na != nb {
        assert(a@ != b@);
        return false;
    }
    let mut i: usize = 0;
    while i < na
        invariant
            na == a@.len(),
            na == b@.len(),
            i <= na,
            forall|j: int| 0 <= j < i ==> a@[j] == b@[j],
        decreases na - i,
    {
        if a.get_char(i) != b.get_char(i) {
            return false;
        }
        i = i + 1;
    }
    assert(a@ =~= b@);
    true
}

/// Whether two character vectors hold the same characters.
pub fn chars_eq(a: &Vec<char>, b: &Vec<char>) -> (r: bool)
    ensures
        r == (a@ == b@),
{
    if a.len() != b.len() {
        return false;
    }
    let mut i: usize = 0;
    while i < a.len()
        invariant
            a@.len() == b@.len(),
            i <= a@.len(),
            forall|j: int| 0 <= j < i ==> a@[j] == b@[j],
        decreases a@.len() - i,
    {
        if a[i] != b[i] {
            return false;
        }
        i = i + 1;
    }
    assert(a@ =~= b@);
    true
}

/// Whether `pat` occurs in `v` at position `i`.
pub fn match_at(v: &Vec<char>, pat: &Vec<char>, i: usize) -> (r: bool)
    ensures
        r == is_match_at(v@, pat@, i as int),
{
    if i > v.len() || pat.len() > v.len() - i {
        return false;
    }
    let mut k: usize = 0;
    while k < pat.len()
        invariant
            i + pat.len() <= v.len(),
            k <= pat.len(),
            forall|j: int| 0 <= j < k ==> v@[i + j] == pat@[j],
        decreases pat.len() - k,
    {
        if v[i + k] != pat[k] {
            assert(v@.subrange(i as int, i + pat@.len()) != pat@) by {
                assert(v@.subrange(i as int, i + pat@.len())[k as int] != pat@[k as int]);
            }
            return false;
        }
        k = k + 1;
    }
    assert(v@.subrange(i as int, i + pat@.len()) =~= pat@);
    true
}

/// The first position `>= from` at which `pat` occurs in `v`, if any.
pub fn find_from(v: &Vec<char>, pat: &Vec<char>, from: usize) -> (r: Option<usize>)
    ensures
        r is Some <==> first_match_from(v@, pat@, from as nat) is Some,
        r is Some ==> Some(r->0 as int) == first_match_from(v@, pat@, from as nat),
        r is Some ==> from <= r->0 && r->0 + pat@.len() <= v@.len() && is_match_at(
            v@,
            pat@,
            r->0 as int,
        ),
{
    proof {
        lemma_first_match_from(v@, pat@, from as nat);
    }
    if pat.len() == 0 {
        if from <= v.len() {
            assert(is_match_at(v@, pat@, from as int)) by {
                assert(v@.subrange(from as int, from as int) =~= pat@);
            }
            return Some(from);
        }
        return None;
    }
    if pat.len() > v.len() || from > v.len() - pat.len() {
        assert(forall|j: int| from <= j ==> !is_match_at(v@, pat@, j));
        return None;
    }
    let last = v.len() - pat.len();
    let mut i: usize = from;
    while i <= last
        invariant
            1 <= pat.len() <= v.len(),
            last == v.len() - pat.len(),
            from <= i <= last + 1,
            forall|j: int| from <= j < i ==> !is_match_at(v@, pat@, j),
        decreases last + 1 - i,
    {
        if match_at(v, pat, i) {
            proof {
                lemma_first_match_from(v@, pat@, from as nat);
            }
            return Some(i);
        }
        i = i + 1;
    }
    proof {
        lemma_first_match_from(v@, pat@, from as nat);
    }
    assert(forall|j: int| from <= j ==> !is_match_at(v@, pat@, j));
    None
}

/// The characters of `v` from `a` (inclusive) to `b` (exclusive).
pub fn subrange_chars(v: &Vec<char>, a: usize, b: usize) -> (r: Vec<char>)
    requires
        a <= b <= v@.len(),
    ensures
        r@ == v@.subrange(a as int, b as int),
{
    let mut out: Vec<char> = Vec::new();
    let mut i: usize = a;
    while i < b
        invariant
            a <= i <= b <= v@.len(),
            out@ == v@.subrange(a as int, i as int),
        decreases b - i,
    {
        out.push(v[i]);
        assert(v@.subrange(a as int, i + 1 as int) =~= v@.subrange(a as int, i as int).push(
            v@[i as int],
        ));
        i = i + 1;
    }
    out
}

/// Appends all characters of `src` to `dst`.
pub fn extend_chars(dst: &mut Vec<char>, src: &Vec<char>)
    ensures
        final(dst)@ == old(dst)@ + src@,
{
    let mut i: usize = 0;
    while i < src.len()
        invariant
            i <= src.len(),
            dst@ == old(dst)@ + src@.take(i as int),
        decreases src.len() - i,
    {
        dst.push(src[i]);
        assert(old(dst)@ + src@.take(i + 1 as int) =~= (old(dst)@ + src@.take(i as int)).push(
            src@[i as int],
        ));
        i = i + 1;
    }
    assert(old(dst)@ + src@.take(src@.len() as int) =~= old(dst)@ + src@);
}

/// Removing `a` leading space characters, down to the first non-space one,
/// is exactly what `trim_start_spec` does.
proof fn lemma_trim_start_at(s: Seq<char>, a: int)
    requires
        0 <= a <= s.len(),
        forall|j: int| 0 <= j < a ==> is_space_char(s[j]),
        a == s.len() || !is_space_char(s[a]),
    ensures
        trim_start_spec(s) == s.skip(a),
    decreases a,
{
    if a == 0 {
        assert(s.skip(0) =~= s);
    } else {
        assert(is_space_char(s[0]));
        lemma_trim_start_at(s.drop_first(), a - 1);
        assert(s.drop_first().skip(a - 1) =~= s.skip(a));
    }
}

/// Keeping the first `b` characters, back to the last non-space one, is
/// exactly what `trim_end_spec` does.
proof fn lemma_trim_end_at(s: Seq<char>, b: int)
    requires
        0 <= b <= s.len(),
        forall|j: int| b <= j < s.len() ==> is_space_char(s[j]),
        b == 0 || !is_space_char(s[b - 1]),
    ensures
        trim_end_spec(s) == s.take(b),
    decreases s.len() - b,
{
    if b == s.len() {
        assert(s.take(b) =~= s);
    } else {
        assert(is_space_char(s[s.len() - 1]));
        lemma_trim_end_at(s.drop_last(), b);
        assert(s.drop_last().take(b) =~= s.take(b));
    }
}

/// `v` with leading and trailing whitespace removed.
pub fn trim_chars(v: &Vec<char>) -> (r: Vec<char>)
    ensures
        r@ == trim_spec(v@),
{
    let n = v.len();
    let mut a: usize = 0;
    while a < n && is_space(v[a])
        invariant
            n == v@.len(),
            a <= n,
            forall|j: int| 0 <= j < a ==> is_space_char(v@[j]),
        decreases n - a,
    {
        a = a + 1;
    }
    proof {
        lemma_trim_start_at(v@, a as int);
    }
    if a == n {
        assert(v@.skip(a as int) =~= Seq::<char>::empty());
        return Vec::new();
    }
    let mut b: usize = n;
    while b > a && is_space(v[b - 1])
        invariant
            a < n == v@.len(),
            a <= b <= n,
            forall|j: int| b <= j < n ==> is_space_char(v@[j]),
        decreases b,
    {
        b = b - 1;
    }
    assert(b > a) by {
        assert(!is_space_char(v@[a as int]));
    }
    proof {
        lemma_trim_start_at(v@, a as int);
        lemma_trim_end_at(v@.skip(a as int), b - a);
        assert(v@.skip(a as int).take(b - a) =~= v@.subrange(a as int, b as int));
    }
    subrange_chars(v, a, b)
}

/// Whether `c` is Unicode whitespace.
pub fn is_space(c: char) -> (r: bool)
    ensures
        r == is_space_char(c),
{
    c == '\u{0009}' || c == '\u{000A}' || c == '\u{000B}' || c == '\u{000C}' || c == '\u{000D}'
        || c == '\u{0020}' || c == '\u{0085}' || c == '\u{00A0}' || c == '\u{1680}' || (
    '\u{2000}' <= c && c <= '\u{200A}') || c == '\u{2028}' || c == '\u{2029}' || c == '\u{202F}'
        || c == '\u{205F}' || c == '\u{3000}'
}

/// The pieces of `v` between non-overlapping occurrences of `pat`.
pub fn split_on_chars(v: &Vec<char>, pat: &Vec<char>) -> (r: Vec<Vec<char>>)
    ensures
        char_views(r@) == split_on(v@, pat@),
{
    if pat.len() == 0 {
        let mut out: Vec<Vec<char>> = Vec::new();
        out.push(v.clone());
        assert(char_views(out@) =~= split_on(v@, pat@));
        return out;
    }
    let mut out: Vec<Vec<char>> = Vec::new();
    let mut rest = v.clone();
    loop
        invariant
            pat@.len() > 0,
            split_on(v@, pat@) == char_views(out@) + split_on(rest@, pat@),
        decreases rest@.len(),
    {
        match find_from(&rest, pat, 0) {
            None => {
                let ghost prev = out@;
                out.push(rest);
                assert(char_views(out@) =~= char_views(prev) + seq![split_on(v@, pat@)[0]].update(
                    0,
                    out@[out@.len() - 1]@,
                ));
                assert(char_views(out@) =~= char_views(prev) + split_on(v@, pat@).skip(
                    char_views(prev).len() as int,
                )) by {
                    assert(split_on(v@, pat@) =~= char_views(prev) + split_on(
                        char_views(out@)[char_views(out@).len() - 1],
                        pat@,
                    ));
                }
                assert(char_views(out@) =~= split_on(v@, pat@));
                return out;
            },
            Some(i) => {
                let rl = rest.len();
                let piece = subrange_chars(&rest, 0, i);
                let ghost prev = out@;
                let ghost prev_rest = rest@;
                out.push(piece);
                let next = subrange_chars(&rest, i + pat.len(), rl);
                rest = next;
                proof {
                    assert(prev_rest.take(i as int) == piece@);
                    assert(prev_rest.skip(i + pat@.len() as int) == rest@);
                    assert(split_on(prev_rest, pat@) == seq![prev_rest.take(i as int)] + split_on(
                        rest@,
                        pat@,
                    ));
                    assert(char_views(out@) =~= char_views(prev).push(piece@));
                    assert(char_views(prev) + split_on(prev_rest, pat@) =~= char_views(out@)
                        + split_on(rest@, pat@));
                }
            },
        }
    }
}

/// `v` with every non-overlapping occurrence of `pat` replaced by `repl`.
pub fn replace_all_chars(v: &Vec<char>, pat: &Vec<char>, repl: &Vec<char>) -> (r: Vec<char>)
    ensures
        r@ == replace_all_spec(v@, pat@, repl@),
{
    if pat.len() == 0 {
        return v.clone();
    }
    let mut out: Vec<char> = Vec::new();
    let mut rest = v.clone();
    loop
        invariant
            pat@.len() > 0,
            replace_all_spec(v@, pat@, repl@) == out@ + replace_all_spec(rest@, pat@, repl@),
        decreases rest@.len(),
    {
        match find_from(&rest, pat, 0) {
            None => {
                extend_chars(&mut out, &rest);
                return out;
            },
            Some(i) => {
                let rl = rest.len();
                let piece = subrange_chars(&rest, 0, i);
                let ghost prev = out@;
                let ghost prev_rest = rest@;
                extend_chars(&mut out, &piece);
                extend_chars(&mut out, repl);
                let next = subrange_chars(&rest, i + pat.len(), rl);
                rest = next;
                proof {
                    assert(replace_all_spec(prev_rest, pat@, repl@) == prev_rest.take(i as int)
                        + repl@ + replace_all_spec(rest@, pat@, repl@));
                    assert(prev + replace_all_spec(prev_rest, pat@, repl@) =~= out@
                        + replace_all_spec(rest@, pat@, repl@));
                }
            },
        }
    }
}

/// The elements of `parts` concatenated with `sep` between them.
pub fn join_chars(parts: &Vec<Vec<char>>, sep: &Vec<char>) -> (r: Vec<char>)
    ensures
        r@ == join_with(char_views(parts@), sep@),
{
    let mut out: Vec<char> = Vec::new();
    let mut i: usize = 0;
    while i < parts.len()
        invariant
            i <= parts@.len(),
            out@ == join_with(char_views(parts@.take(i as int)), sep@),
        decreases parts@.len() - i,
    {
        if i > 0 {
            extend_chars(&mut out, sep);
        }
        extend_chars(&mut out, &parts[i]);
        proof {
            assert(char_views(parts@.take(i + 1 as int)) =~= char_views(parts@.take(i as int)).push(
                parts@[i as int]@,
            ));
            lemma_join_push(char_views(parts@.take(i as int)), sep@, parts@[i as int]@);
            assert(char_views(parts@.take(i as int)).len() == i);
        }
        i = i + 1;
    }
    assert(parts@.take(parts@.len() as int) =~= parts@);
    out
}

} // verus!
