//! Decimal printing and parsing of unsigned numbers, with the round-trip
//! facts the checkpoint codec needs.

use vstd::prelude::*;

verus! {

/// The digit character for `d` (meaningful for `d < 10`).
pub open spec fn digit_char(d: nat) -> char {
    if d == 0 {
        '0'
    } else if d == 1 {
        '1'
    } else if d == 2 {
        '2'
    } else if d == 3 {
        '3'
    } else if d == 4 {
        '4'
    } else if d == 5 {
        '5'
    } else if d == 6 {
        '6'
    } else if d == 7 {
        '7'
    } else if d == 8 {
        '8'
    } else {
        '9'
    }
}

/// The numeric value of a digit character, or `None` for any other char.
pub open spec fn char_digit(c: char) -> Option<nat> {
    if c == '0' {
        Some(0 as nat)
    } else if c == '1' {
        Some(1 as nat)
    } else if c == '2' {
        Some(2 as nat)
    } else if c == '3' {
        Some(3 as nat)
    } else if c == '4' {
        Some(4 as nat)
    } else if c == '5' {
        Some(5 as nat)
    } else if c == '6' {
        Some(6 as nat)
    } else if c == '7' {
        Some(7 as nat)
    } else if c == '8' {
        Some(8 as nat)
    } else if c == '9' {
        Some(9 as nat)
    } else {
        None
    }
}

/// The usual decimal digit string of `n`, without leading zeros.
pub open spec fn dec_digits(n: nat) -> Seq<char>
    decreases n,
{
    if n < 10 {
        seq![digit_char(n)]
    } else {
        dec_digits(n / 10).push(digit_char(n % 10))
    }
}

/// The value of a digit string read in base ten.
pub open spec fn digits_to_nat(ds: Seq<char>) -> nat
    decreases ds.len(),
{
    if ds.len() == 0 {
        0
    } else {
        digits_to_nat(ds.drop_last()) * 10 + match char_digit(ds.last()) {
            Some(d) => d,
            None => 0,
        }
    }
}

/// Every character of a printed number is a digit, the string is non-empty,
/// and it starts with `'0'` only for zero itself.
pub proof fn lemma_dec_digits_wf(n: nat)
    ensures
        dec_digits(n).len() >= 1,
        forall|i: int| 0 <= i < dec_digits(n).len() ==> char_digit(#[trigger] dec_digits(n)[i])
            is Some,
        dec_digits(n)[0] == '0' <==> n == 0,
    decreases n,
{
    if n < 10 {
    } else {
        lemma_dec_digits_wf(n / 10);
        assert forall|i: int| 0 <= i < dec_digits(n).len() implies char_digit(
            #[trigger] dec_digits(n)[i],
        ) is Some by {
            if i < dec_digits(n / 10).len() {
                assert(dec_digits(n)[i] == dec_digits(n / 10)[i]);
            } else {
                assert(dec_digits(n)[i] == digit_char(n % 10));
            }
        }
        assert(dec_digits(n)[0] == dec_digits(n / 10)[0]);
        assert(n / 10 > 0);
    }
}

/// Printing then reading a single digit is the identity.
pub proof fn lemma_char_digit_inverse(d: nat)
    requires
        d < 10,
    ensures
        char_digit(digit_char(d)) == Some(d),
{
}

/// Reading back the printed digits of `n` yields `n`.
pub proof fn lemma_digits_round_trip(n: nat)
    ensures
        digits_to_nat(dec_digits(n)) == n,
    decreases n,
{
    if n < 10 {
        lemma_char_digit_inverse(n);
        assert(dec_digits(n).len() == 1);
        assert(dec_digits(n).drop_last() =~= Seq::<char>::empty());
        assert(dec_digits(n).last() == digit_char(n));
        assert(digits_to_nat(Seq::<char>::empty()) == 0);
        assert(digits_to_nat(dec_digits(n)) == 0 * 10 + n);
    } else {
        lemma_digits_round_trip(n / 10);
        lemma_char_digit_inverse(n % 10);
        assert(dec_digits(n).drop_last() =~= dec_digits(n / 10));
        assert(dec_digits(n).last() == digit_char(n % 10));
        assert(digits_to_nat(dec_digits(n)) == digits_to_nat(dec_digits(n / 10)) * 10 + n % 10);
        assert(digits_to_nat(dec_digits(n)) == (n / 10) * 10 + n % 10);
    }
}

/// The digit character for `d`.
pub fn digit_char_exec(d: u64) -> (r: char)
    requires
        d < 10,
    ensures
        r == digit_char(d as nat),
{
    if d == 0 {
        '0'
    } else if d == 1 {
        '1'
    } else if d == 2 {
        '2'
    } else if d == 3 {
        '3'
    } else if d == 4 {
        '4'
    } else if d == 5 {
        '5'
    } else if d == 6 {
        '6'
    } else if d == 7 {
        '7'
    } else if d == 8 {
        '8'
    } else {
        '9'
    }
}

/// The numeric value of a digit character, or `None` for any other char.
pub fn char_digit_exec(c: char) -> (r: Option<u64>)
    ensures
        r is Some <==> char_digit(c) is Some,
        r is Some ==> Some(r->0 as nat) == char_digit(c),
{
    if c == '0' {
        Some(0)
    } else if c == '1' {
        Some(1)
    } else if c == '2' {
        Some(2)
    } else if c == '3' {
        Some(3)
    } else if c == '4' {
        Some(4)
    } else if c == '5' {
        Some(5)
    } else if c == '6' {
        Some(6)
    } else if c == '7' {
        Some(7)
    } else if c == '8' {
        Some(8)
    } else if c == '9' {
        Some(9)
    } else {
        None
    }
}

/// The maximal digit prefix of `s` and the remainder after it.
pub open spec fn split_digits(s: Seq<char>) -> (Seq<char>, Seq<char>)
    decreases s.len(),
{
    if s.len() > 0 && char_digit(s[0]) is Some {
        let (d, r) = split_digits(s.drop_first());
        (seq![s[0]] + d, r)
    } else {
        (Seq::empty(), s)
    }
}

/// Splitting off digits from a digit string followed by a non-digit yields
/// exactly that digit string and that remainder.
pub proof fn lemma_split_digits_concat(a: Seq<char>, rest: Seq<char>)
    requires
        forall|i: int| 0 <= i < a.len() ==> char_digit(#[trigger] a[i]) is Some,
        rest.len() == 0 || char_digit(rest[0]) is None,
    ensures
        split_digits(a + rest).0 == a,
        split_digits(a + rest).1 == rest,
    decreases a.len(),
{
    if a.len() == 0 {
        assert(a + rest =~= rest);
        assert(split_digits(rest).0 =~= a);
    } else {
        assert((a + rest)[0] == a[0]);
        assert((a + rest).drop_first() =~= a.drop_first() + rest);
        lemma_split_digits_concat(a.drop_first(), rest);
        assert(seq![a[0]] + a.drop_first() =~= a);
    }
}

/// A number read from the front of `s`: its maximal digit prefix must be
/// non-empty, have no leading zero, and fit a `usize`; the remainder of `s`
/// is returned beside the value.
pub open spec fn parse_number(s: Seq<char>) -> Option<(nat, Seq<char>)> {
    let ds = split_digits(s).0;
    let rest = split_digits(s).1;
    if ds.len() == 0 {
        None
    } else if ds.len() > 1 && ds[0] == '0' {
        None
    } else if digits_to_nat(ds) > usize::MAX as nat {
        None
    } else {
        Some((digits_to_nat(ds), rest))
    }
}

/// Reading a number back from its printed digits yields the number and
/// leaves the following text, provided that text does not begin with a
/// digit.
pub proof fn lemma_parse_number_round_trip(n: nat, rest: Seq<char>)
    requires
        n <= usize::MAX as nat,
        rest.len() == 0 || char_digit(rest[0]) is None,
    ensures
        parse_number(dec_digits(n) + rest) == Some((n, rest)),
{
    lemma_dec_digits_wf(n);
    lemma_digits_round_trip(n);
    lemma_split_digits_concat(dec_digits(n), rest);
    if dec_digits(n).len() > 1 {
        assert(n != 0);
        assert(dec_digits(n)[0] != '0');
    }
}

/// The decimal digit characters of `n`.
pub fn dec_chars(n: u64) -> (r: Vec<char>)
    ensures
        r@ == dec_digits(n as nat),
    decreases n,
{
    if n < 10 {
        let mut out: Vec<char> = Vec::new();
        out.push(digit_char_exec(n));
        assert(out@ =~= seq![digit_char(n as nat)]);
        out
    } else {
        let mut out = dec_chars(n / 10);
        out.push(digit_char_exec(n % 10));
        out
    }
}

/// Reads the number at position `from` of `v`, as `parse_number` describes
/// it on the suffix starting there; returns the value and the position just
/// after its digits.
pub fn parse_number_chars(v: &Vec<char>, from: usize) -> (r: Option<(usize, usize)>)
    requires
        from <= v@.len(),
    ensures
        r is Some <==> parse_number(v@.skip(from as int)) is Some,
        r is Some ==> ({
            &&& from < (r->0).1 <= v@.len()
            &&& parse_number(v@.skip(from as int)) == Some(
                ((r->0).0 as nat, v@.skip((r->0).1 as int)),
            )
        }),
{
    let n = v.len();
    let mut e: usize = from;
    while e < n && char_digit_exec(v[e]).is_some()
        invariant
            from <= e <= n == v@.len(),
            forall|i: int| from <= i < e ==> char_digit(#[trigger] v@[i]) is Some,
        decreases n - e,
    {
        e = e + 1;
    }
    let ghost ds = v@.subrange(from as int, e as int);
    let ghost rest = v@.skip(e as int);
    proof {
        assert(v@.skip(from as int) =~= ds + rest);
        lemma_split_digits_concat(ds, rest);
    }
    if e == from {
        return None;
    }
    if e - from > 1 && v[from] == '0' {
        return None;
    }
    let mut acc: usize = 0;
    let mut over: bool = false;
    let mut k: usize = from;
    while k < e
        invariant
            from <= k <= e <= n == v@.len(),
            forall|i: int| from <= i < e ==> char_digit(#[trigger] v@[i]) is Some,
            !over ==> acc as nat == digits_to_nat(v@.subrange(from as int, k as int)),
            over ==> digits_to_nat(v@.subrange(from as int, k as int)) > usize::MAX as nat,
        decreases e - k,
    {
        let d = match char_digit_exec(v[k]) {
            Some(d) => d,
            None => 0,
        };
        let ghost prev = digits_to_nat(v@.subrange(from as int, k as int));
        proof {
            assert(v@.subrange(from as int, k + 1 as int).drop_last() =~= v@.subrange(
                from as int,
                k as int,
            ));
            assert(v@.subrange(from as int, k + 1 as int).last() == v@[k as int]);
            assert(digits_to_nat(v@.subrange(from as int, k + 1 as int)) == prev * 10 + (
            d as nat));
        }
        if over {
            proof {
                assert(prev * 10 >= prev) by (nonlinear_arith)
                    requires
                        prev >= 0,
                ;
            }
        } else {
            let du = d as usize;
            let limit = (usize::MAX - du) / 10;
            if acc > limit {
                proof {
                    let m = usize::MAX as nat;
                    assert((m - du) == 10 * ((m - du) / 10) + (m - du) % 10);
                    assert(acc as nat * 10 > m - du) by (nonlinear_arith)
                        requires
                            acc as nat >= (m - du) / 10 + 1,
                            (m - du) == 10 * ((m - du) / 10) + (m - du) % 10,
                            (m - du) % 10 < 10,
                    ;
                }
                over = true;
            } else {
                proof {
                    let m = usize::MAX as nat;
                    assert((m - du) == 10 * ((m - du) / 10) + (m - du) % 10);
                    assert(acc as nat * 10 <= m - du) by (nonlinear_arith)
                        requires
                            acc as nat <= (m - du) / 10,
                            (m - du) == 10 * ((m - du) / 10) + (m - du) % 10,
                            (m - du) % 10 >= 0,
                    ;
                }
                acc = acc * 10 + du;
            }
        }
        k = k + 1;
    }
    proof {
        assert(v@.subrange(from as int, e as int) == ds);
    }
    if over {
        None
    } else {
        Some((acc, e))
    }
}

} // verus!
