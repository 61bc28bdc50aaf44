//! The positional numeral model: which characters are digits, what a
//! digit string is worth in a base, and the canonical digit string of a
//! value.
use vstd::arithmetic::div_mod::{
    lemma_div_decreases,
    lemma_div_non_zero,
    lemma_fundamental_div_mod,
    lemma_fundamental_div_mod_converse,
};
use vstd::prelude::*;

verus! {

/// Value of a digit symbol: `0`-`9` stand for 0 to 9, and `A`-`Z`
/// (or `a`-`z`) for 10 to 35. Any other character is no digit.
pub open spec fn digit_value(c: char) -> Option<nat> {
    if '0' <= c && c <= '9' {
        Some((c as nat - '0' as nat) as nat)
    } else if 'A' <= c && c <= 'Z' {
        Some((c as nat - 'A' as nat + 10) as nat)
    } else if 'a' <= c && c <= 'z' {
        Some((c as nat - 'a' as nat + 10) as nat)
    } else {
        None
    }
}

/// `c` is a digit of base `b`.
pub open spec fn is_digit_of(c: char, b: nat) -> bool {
    digit_value(c) is Some && digit_value(c).unwrap() < b
}

/// The symbol written for digit `d`: `0`-`9`, then upper-case letters.
pub open spec fn digit_char(d: nat) -> char {
    if d < 10 {
        ((d + '0' as nat) as u8) as char
    } else {
        ((d - 10 + 'A' as nat) as u8) as char
    }
}

/// Value of the digit string `s` in base `b`, most significant digit
/// first. A character that is no digit counts as zero here; callers
/// check the digits with `is_numeral_of`.
pub open spec fn value_of(s: Seq<char>, b: nat) -> nat
    decreases s.len(),
{
    if s.len() == 0 {
        0
    } else {
        let d = match digit_value(s.last()) {
            Some(d) => d,
            None => 0,
        };
        value_of(s.drop_last(), b) * b + d
    }
}

/// `s` is a non-empty string of digits of base `b`.
pub open spec fn is_numeral_of(s: Seq<char>, b: nat) -> bool {
    &&& s.len() > 0
    &&& forall|i: int| 0 <= i < s.len() ==> is_digit_of(#[trigger] s[i], b)
}

/// What parsing `s` in base `b` gives, before any bound on the result:
/// the value where `b` is a radix in `[2, 36]` and `s` a numeral of it.
pub open spec fn numeral_value(s: Seq<char>, b: nat) -> Option<nat> {
    if 2 <= b <= 36 && is_numeral_of(s, b) {
        Some(value_of(s, b))
    } else {
        None
    }
}

/// The canonical digit string of `v` in base `b`: upper-case digits,
/// no leading zero, and `0` for zero.
pub open spec fn digits_of(v: nat, b: nat) -> Seq<char>
    decreases v,
{
    if b < 2 || v < b {
        seq![digit_char(v)]
    } else {
        proof {
            lemma_div_decreases(v as int, b as int);
        }
        digits_of(v / b, b).push(digit_char(v % b))
    }
}

/// `s` is written the way `digits_of` writes: digits of `b` in their
/// canonical symbol, and no leading zero unless `s` is a single digit.
pub open spec fn is_canonical_numeral(s: Seq<char>, b: nat) -> bool {
    &&& is_numeral_of(s, b)
    &&& forall|i: int| 0 <= i < s.len() ==> #[trigger] s[i] == digit_char(digit_value(s[i]).unwrap())
    &&& (s.len() == 1 || s[0] != '0')
}

/// Executable symbol for a digit below 36.
pub fn digit_to_char(d: u8) -> (c: char)
    requires
        d < 36,
    ensures
        c == digit_char(d as nat),
        digit_value(c) == Some(d as nat),
{
    if d < 10 {
        (48u8 + d) as char
    } else {
        (55u8 + d) as char
    }
}

/// Executable value of a digit symbol.
pub fn char_to_digit(c: char) -> (r: Option<u32>)
    ensures
        match r {
            Some(d) => digit_value(c) == Some(d as nat),
            None => digit_value(c) is None,
        },
{
    if '0' <= c && c <= '9' {
        Some(c as u32 - 48)
    } else if 'A' <= c && c <= 'Z' {
        Some(c as u32 - 55)
    } else if 'a' <= c && c <= 'z' {
        Some(c as u32 - 87)
    } else {
        None
    }
}

/// The symbol of a digit reads back as that digit.
pub proof fn lemma_digit_char_value(d: nat)
    requires
        d < 36,
    ensures
        digit_value(digit_char(d)) == Some(d),
        d < 10 ==> '0' <= digit_char(d) <= '9',
        d == 0 <==> digit_char(d) == '0',
{
}

/// Appending a digit multiplies by the base and adds the digit.
pub proof fn lemma_value_of_push(s: Seq<char>, c: char, b: nat)
    ensures
        value_of(s.push(c), b) == value_of(s, b) * b + match digit_value(c) {
            Some(d) => d,
            None => 0,
        },
{
    assert(s.push(c).drop_last() =~= s);
}

/// A prefix is worth no more than the whole string.
pub proof fn lemma_value_of_prefix(s: Seq<char>, i: int, b: nat)
    requires
        0 <= i <= s.len(),
        b >= 1,
    ensures
        value_of(s.take(i), b) <= value_of(s, b),
    decreases s.len(),
{
    if i < s.len() {
        assert(s.drop_last().take(i) =~= s.take(i));
        lemma_value_of_prefix(s.drop_last(), i, b);
        let p = value_of(s.drop_last(), b);
        assert(p * b >= p) by (nonlinear_arith)
            requires
                b >= 1,
        ;
    } else {
        assert(s.take(i) =~= s);
    }
}

/// The canonical digit string of `v` is a numeral of `b`, worth `v`,
/// written in canonical symbols, and has a leading zero only for zero.
pub proof fn lemma_digits_of(v: nat, b: nat)
    requires
        2 <= b <= 36,
    ensures
        is_canonical_numeral(digits_of(v, b), b),
        value_of(digits_of(v, b), b) == v,
        v > 0 ==> digits_of(v, b)[0] != '0',
    decreases v,
{
    let s = digits_of(v, b);
    if v < b {
        lemma_digit_char_value(v);
        assert(s.drop_last() =~= Seq::<char>::empty());
        assert(value_of(s.drop_last(), b) == 0);
        assert(0 * b == 0);
    } else {
        lemma_div_decreases(v as int, b as int);
        lemma_div_non_zero(v as int, b as int);
        lemma_fundamental_div_mod(v as int, b as int);
        let q = v / b;
        let r = v % b;
        lemma_digits_of(q, b);
        lemma_digit_char_value(r);
        let p = digits_of(q, b);
        assert(s == p.push(digit_char(r)));
        lemma_value_of_push(p, digit_char(r), b);
        assert(value_of(s, b) == q * b + r);
        assert(v == q * b + r) by (nonlinear_arith)
            requires
                v == b * q + r,
        ;
        assert forall|i: int| 0 <= i < s.len() implies is_digit_of(#[trigger] s[i], b)
            && s[i] == digit_char(digit_value(s[i]).unwrap()) by {
            if i < p.len() {
                assert(s[i] == p[i]);
            }
        }
        assert(s[0] == p[0]);
    }
}

/// A canonical numeral is the canonical digit string of its value.
pub proof fn lemma_canonical_numeral_unique(s: Seq<char>, b: nat)
    requires
        2 <= b <= 36,
        is_canonical_numeral(s, b),
    ensures
        s == digits_of(value_of(s, b), b),
        s[0] != '0' ==> value_of(s, b) > 0,
    decreases s.len(),
{
    let v = value_of(s, b);
    let d = digit_value(s.last()).unwrap();
    assert(is_digit_of(s[s.len() - 1], b));
    if s.len() == 1 {
        assert(s.drop_last() =~= Seq::<char>::empty());
        assert(value_of(s.drop_last(), b) == 0);
        assert(0 * b == 0);
        assert(v == d);
        assert(s[0] == digit_char(d));
        lemma_digit_char_value(d);
        assert(s =~= seq![digit_char(d)]);
    } else {
        let p = s.drop_last();
        assert forall|i: int| 0 <= i < p.len() implies is_digit_of(#[trigger] p[i], b)
            && p[i] == digit_char(digit_value(p[i]).unwrap()) by {
            assert(p[i] == s[i]);
        }
        assert(p[0] == s[0]);
        lemma_canonical_numeral_unique(p, b);
        let q = value_of(p, b);
        assert(v == q * b + d);
        assert(v >= b) by (nonlinear_arith)
            requires
                v == q * b + d,
                q >= 1,
        ;
        lemma_fundamental_div_mod_converse(v as int, b as int, q as int, d as int);
        assert(s.last() == digit_char(d));
        assert(s =~= p.push(s.last()));
    }
}

} // verus!
