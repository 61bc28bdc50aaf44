//! The converter: a numeral in some base to a canonical `u128`, and a
//! `u128` back to the digits of any base in `[2, 33]`.
use vstd::prelude::*;

use crate::digits::{
    char_to_digit,
    digit_to_char,
    digits_of,
    is_digit_of,
    lemma_value_of_prefix,
    lemma_value_of_push,
    numeral_value,
    value_of,
};
use crate::text::{prepend_char, remove_char, without_char};

verus! {

/// The three ways a conversion can fail.
#[derive(Debug, Clone, Copy, PartialEq, Eq, Structural)]
pub enum ErrorCode {
    /// The literal has a character that is no digit of its base, the base
    /// is no radix, or the value does not fit in a `u128`.
    BaseConversionErr,
    /// A requested output base is not a base-10 number.
    TargetBaseErr,
    /// There is no literal to convert, or an output base cannot be
    /// rendered into.
    InputBaseErr,
}

impl ErrorCode {
    /// Human-readable name of the failure.
    pub fn description(&self) -> (r: &'static str)
        ensures
            *self == ErrorCode::BaseConversionErr ==> r@ == "Base Conversion Error"@,
            *self == ErrorCode::TargetBaseErr ==> r@ == "Target Base Error"@,
            *self == ErrorCode::InputBaseErr ==> r@ == "Input Base Error"@,
    {
        match self {
            ErrorCode::BaseConversionErr => "Base Conversion Error",
            ErrorCode::TargetBaseErr => "Target Base Error",
            ErrorCode::InputBaseErr => "Input Base Error",
        }
    }
}

/// Outcome of parsing the digit string `s` in base `b`.
pub open spec fn parse_result(s: Seq<char>, b: nat) -> Result<u128, ErrorCode> {
    match numeral_value(s, b) {
        Some(v) => if v <= u128::MAX {
            Ok(v as u128)
        } else {
            Err(ErrorCode::BaseConversionErr)
        },
        None => Err(ErrorCode::BaseConversionErr),
    }
}

/// Outcome of converting the optional literal `from_num`, written in
/// base `b` with any number of `sep` characters in it.
pub open spec fn conversion_result(from_num: Option<Seq<char>>, b: nat, sep: char) -> Result<
    u128,
    ErrorCode,
> {
    match from_num {
        None => Err(ErrorCode::InputBaseErr),
        Some(s) => if s.len() == 0 {
            Err(ErrorCode::InputBaseErr)
        } else {
            parse_result(without_char(s, sep), b)
        },
    }
}

/// The view of an optional string.
pub open spec fn opt_view(s: Option<String>) -> Option<Seq<char>> {
    match s {
        Some(t) => Some(t@),
        None => None,
    }
}

/// Parses a digit string (no separators) in base `base`, most
/// significant digit first; letters of either case are digits above 9.
pub fn parse_numeral(s: &str, base: u32) -> (r: Result<u128, ErrorCode>)
    ensures
        r == parse_result(s@, base as nat),
{
    if base < 2 || base > 36 {
        return Err(ErrorCode::BaseConversionErr);
    }
    let n = s.unicode_len();
    if n == 0 {
        return Err(ErrorCode::BaseConversionErr);
    }
    let b = base as u128;
    let mut acc: u128 = 0;
    let mut i: usize = 0;
    while i < n
        invariant
            i <= n,
            n == s@.len(),
            b == base,
            2 <= base <= 36,
            acc == value_of(s@.take(i as int), b as nat),
            forall|j: int| 0 <= j < i ==> is_digit_of(#[trigger] s@[j], b as nat),
        decreases n - i,
    {
        let c = s.get_char(i);
        assert(s@.take(i + 1) =~= s@.take(i as int).push(c));
        proof {
            lemma_value_of_push(s@.take(i as int), c, b as nat);
            lemma_value_of_prefix(s@, i + 1, b as nat);
        }
        let d = match char_to_digit(c) {
            Some(d) => d,
            None => {
                assert(!is_digit_of(s@[i as int], b as nat));
                return Err(ErrorCode::BaseConversionErr);
            },
        };
        if d >= base {
            assert(!is_digit_of(s@[i as int], b as nat));
            return Err(ErrorCode::BaseConversionErr);
        }
        let m = match acc.checked_mul(b) {
            Some(m) => m,
            None => {
                return Err(ErrorCode::BaseConversionErr);
            },
        };
        acc = match m.checked_add(d as u128) {
            Some(a) => a,
            None => {
                return Err(ErrorCode::BaseConversionErr);
            },
        };
        i = i + 1;
    }
    assert(s@.take(n as int) =~= s@);
    Ok(acc)
}

/// Converts a literal written in base `from_base`, with any number of
/// `sep_char` separators in it, to its value.
pub fn convert_to_base_10(from_num: Option<String>, from_base: u32, sep_char: char) -> (r: Result<
    u128,
    ErrorCode,
>)
    ensures
        r == conversion_result(opt_view(from_num), from_base as nat, sep_char),
{
    let num = match from_num {
        Some(num) => num,
        None => {
            return Err(ErrorCode::InputBaseErr);
        },
    };
    if num.as_str().unicode_len() == 0 {
        return Err(ErrorCode::InputBaseErr);
    }
    let digits = remove_char(num.as_str(), sep_char);
    parse_numeral(digits.as_str(), from_base)
}

/// Renders `num` in base `base`: its canonical digit string, upper-case
/// letters above 9, `0` for zero. A base outside `[2, 33]` is refused.
pub fn as_string_base(num: &u128, base: u32) -> (r: Result<String, String>)
    ensures
        match r {
            Ok(s) => 2 <= base <= 33 && s@ == digits_of(*num as nat, base as nat),
            Err(_) => base < 2 || base > 33,
        },
{
    if base < 2 || base > 33 {
        return Err("Invalid Base.  Base must be between 2 and 33 inclusive".to_owned());
    }
    let b = base as u128;
    let mut tmp: u128 = *num;
    let mut out = String::new();
    while tmp >= b
        invariant
            b == base,
            2 <= base <= 33,
            digits_of(*num as nat, b as nat) == digits_of(tmp as nat, b as nat) + out@,
        decreases tmp,
    {
        let d = (tmp % b) as u8;
        let c = digit_to_char(d);
        let ghost old_out = out@;
        let ghost head = digits_of((tmp / b) as nat, b as nat);
        assert(digits_of(tmp as nat, b as nat) == head.push(c));
        prepend_char(&mut out, c);
        assert(head.push(c) + old_out =~= head + out@);
        tmp = tmp / b;
    }
    let c = digit_to_char(tmp as u8);
    let ghost old_out = out@;
    prepend_char(&mut out, c);
    assert(digits_of(tmp as nat, b as nat) + old_out =~= out@);
    Ok(out)
}

} // verus!
