//! Facts that relate parsing and rendering.
use vstd::prelude::*;

use crate::convert::{parse_result, ErrorCode};
use crate::digits::{
    digit_char,
    digit_value,
    digits_of,
    is_canonical_numeral,
    is_digit_of,
    lemma_canonical_numeral_unique,
    lemma_digits_of,
    value_of,
};

verus! {

/// `s` is the usual decimal writing of `v`: decimal digits only, no
/// leading zero unless `s` is `0`, and worth `v`.
pub open spec fn is_decimal_representation(s: Seq<char>, v: nat) -> bool {
    &&& s.len() > 0
    &&& forall|i: int| 0 <= i < s.len() ==> '0' <= #[trigger] s[i] <= '9'
    &&& (s.len() == 1 || s[0] != '0')
    &&& value_of(s, 10) == v
}

/// Parsing what rendering gives returns the value rendered: for every
/// `v` and every base `b` in `[2, 33]`, `parse_numeral` on the digits
/// that `as_string_base(v, b)` produces yields `Ok(v)`.
pub proof fn lemma_round_trip(v: u128, b: u32)
    requires
        2 <= b <= 33,
    ensures
        parse_result(digits_of(v as nat, b as nat), b as nat) == Ok::<u128, ErrorCode>(v),
{
    lemma_digits_of(v as nat, b as nat);
}

/// Rendering in base 10 gives the usual decimal writing of the value,
/// and no other string is that writing.
pub proof fn lemma_decimal_rendering(v: u128)
    ensures
        is_decimal_representation(digits_of(v as nat, 10), v as nat),
        forall|s: Seq<char>| #[trigger]
            is_decimal_representation(s, v as nat) ==> s == digits_of(v as nat, 10),
{
    let d = digits_of(v as nat, 10);
    lemma_digits_of(v as nat, 10);
    assert forall|i: int| 0 <= i < d.len() implies '0' <= #[trigger] d[i] <= '9' by {
        assert(is_digit_of(d[i], 10));
    }
    assert forall|s: Seq<char>| #[trigger]
        is_decimal_representation(s, v as nat) implies s == digits_of(v as nat, 10) by {
        assert forall|i: int| 0 <= i < s.len() implies is_digit_of(#[trigger] s[i], 10) && s[i]
            == digit_char(digit_value(s[i]).unwrap()) by {
            assert('0' <= s[i] <= '9');
        }
        assert(is_canonical_numeral(s, 10));
        lemma_canonical_numeral_unique(s, 10);
    }
}

} // verus!
