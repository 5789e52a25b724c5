//! Decimal text: its value, its canonical form, and unsigned 64-bit parsing.
use vstd::prelude::*;

verus! {

pub open spec fn is_digit(c: char) -> bool {
    '0' <= c && c <= '9'
}

pub open spec fn digit_value(c: char) -> nat {
    (c as int - '0' as int) as nat
}

/// The character of a digit below ten.
pub open spec fn digit_char(d: nat) -> char {
    if d == 0 { '0' }
    else if d == 1 { '1' }
    else if d == 2 { '2' }
    else if d == 3 { '3' }
    else if d == 4 { '4' }
    else if d == 5 { '5' }
    else if d == 6 { '6' }
    else if d == 7 { '7' }
    else if d == 8 { '8' }
    else { '9' }
}

pub open spec fn all_digits(s: Seq<char>) -> bool {
    forall|i: int| 0 <= i < s.len() ==> is_digit(#[trigger] s[i])
}

/// Nonempty text made of ASCII digits only (leading zeros allowed).
pub open spec fn is_decimal_text(s: Seq<char>) -> bool {
    s.len() > 0 && all_digits(s)
}

/// The number that a string of digits denotes, read most significant first.
pub open spec fn dec_value(s: Seq<char>) -> nat
    decreases s.len(),
{
    if s.len() == 0 {
        0
    } else {
        10 * dec_value(s.drop_last()) + digit_value(s.last())
    }
}

/// The canonical decimal form of `n`: no leading zero, "0" for zero.
pub open spec fn decimal_of(n: nat) -> Seq<char>
    decreases n,
{
    if n < 10 {
        seq![digit_char(n)]
    } else {
        decimal_of(n / 10).push(digit_char(n % 10))
    }
}

/// What remains after one optional leading `+`.
pub open spec fn unsigned_part(s: Seq<char>) -> Seq<char> {
    if s.len() > 0 && s[0] == '+' {
        s.drop_first()
    } else {
        s
    }
}

/// `s` is an optional `+` followed by at least one digit, and its value fits in a `u64`.
pub open spec fn parses_as_u64(s: Seq<char>) -> bool {
    is_decimal_text(unsigned_part(s)) && dec_value(unsigned_part(s)) <= u64::MAX
}

pub open spec fn u64_value(s: Seq<char>) -> nat {
    dec_value(unsigned_part(s))
}

pub proof fn lemma_digit_char(d: nat)
    requires
        d < 10,
    ensures
        is_digit(digit_char(d)),
        digit_value(digit_char(d)) == d,
{
}

/// The canonical decimal form is digits only, and denotes the number it was made from.
pub proof fn lemma_decimal_of(n: nat)
    ensures
        is_decimal_text(decimal_of(n)),
        dec_value(decimal_of(n)) == n,
    decreases n,
{
    if n < 10 {
        lemma_digit_char(n);
        assert(decimal_of(n).drop_last() =~= Seq::<char>::empty());
        assert(dec_value(Seq::<char>::empty()) == 0);
        assert(decimal_of(n).last() == digit_char(n));
        assert(dec_value(decimal_of(n)) == 10 * dec_value(decimal_of(n).drop_last()) + digit_value(decimal_of(n).last()));
    } else {
        let p = decimal_of(n / 10);
        lemma_decimal_of(n / 10);
        lemma_digit_char(n % 10);
        assert(decimal_of(n).drop_last() =~= p);
        assert forall|i: int| 0 <= i < decimal_of(n).len() implies is_digit(#[trigger] decimal_of(n)[i]) by {
            if i < p.len() {
                assert(decimal_of(n)[i] == p[i]);
            }
        }
        assert(decimal_of(n).last() == digit_char(n % 10));
        assert(dec_value(decimal_of(n)) == 10 * dec_value(p) + digit_value(digit_char((n % 10) as nat)));
        assert(n == 10 * (n / 10) + n % 10);
    }
}

/// Appending digits never lowers the value of a prefix.
pub proof fn lemma_prefix_value_grows(s: Seq<char>, i: int, j: int)
    requires
        0 <= i <= j <= s.len(),
    ensures
        dec_value(s.subrange(0, i)) <= dec_value(s.subrange(0, j)),
    decreases j - i,
{
    if i < j {
        lemma_prefix_value_grows(s, i, j - 1);
        assert(s.subrange(0, j).drop_last() =~= s.subrange(0, j - 1));
    }
}

/// Reading one more digit multiplies the prefix's value by ten and adds the digit.
pub proof fn lemma_prefix_step(s: Seq<char>, k: int)
    requires
        0 <= k < s.len(),
    ensures
        dec_value(s.subrange(0, k + 1)) == 10 * dec_value(s.subrange(0, k)) + digit_value(s[k]),
{
    assert(s.subrange(0, k + 1).drop_last() =~= s.subrange(0, k));
}

/// Reads `s` as std's `u64` parser does: an optional `+`, then digits, no overflow.
pub fn parse_u64(s: &[char]) -> (r: Option<u64>)
    ensures
        r == (if parses_as_u64(s@) { Some(u64_value(s@) as u64) } else { None::<u64> }),
{
    let n = s.len();
    let start: usize = if n > 0 && s[0] == '+' { 1 } else { 0 };
    let ghost d = unsigned_part(s@);
    assert(d =~= s@.subrange(start as int, n as int));
    if start == n {
        assert(d.len() == 0);
        return None;
    }
    let mut v: u64 = 0;
    let mut i: usize = start;
    while i < n
        invariant
            start <= i <= n,
            n == s@.len(),
            d == s@.subrange(start as int, n as int),
            d == unsigned_part(s@),
            forall|j: int| 0 <= j < i - start ==> is_digit(#[trigger] d[j]),
            v as nat == dec_value(d.subrange(0, i - start)),
        decreases n - i,
    {
        let c = s[i];
        let ghost k = i - start;
        assert(d[k] == c);
        if !('0' <= c && c <= '9') {
            assert(!is_digit(d[k]));
            assert(!all_digits(d));
            return None;
        }
        let dv: u64 = (c as u32 - '0' as u32) as u64;
        assert(dv as nat == digit_value(c));
        proof {
            lemma_prefix_step(d, k);
        }
        match v.checked_mul(10) {
            None => {
                proof {
                    assert(10 * (v as nat) + dv > u64::MAX) by (nonlinear_arith)
                        requires v * 10 > u64::MAX;
                    lemma_prefix_value_grows(d, k + 1, d.len() as int);
                    assert(d.subrange(0, d.len() as int) =~= d);
                }
                return None;
            },
            Some(t) => match t.checked_add(dv) {
                None => {
                    proof {
                        assert(t + dv > u64::MAX);
                        lemma_prefix_value_grows(d, k + 1, d.len() as int);
                        assert(d.subrange(0, d.len() as int) =~= d);
                    }
                    return None;
                },
                Some(w) => {
                    v = w;
                },
            },
        }
        i = i + 1;
    }
    assert(d.subrange(0, n - start) =~= d);
    Some(v)
}

} // verus!
