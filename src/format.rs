//! Presentation of a rendered numeral: zero padding, digit grouping and
//! the `Base NN: ` prefix, and the whole conversion of one invocation.
use vstd::prelude::*;

use crate::convert::{
    as_string_base,
    conversion_result,
    convert_to_base_10,
    opt_view,
    parse_numeral,
    parse_result,
    ErrorCode,
};
use crate::digits::digits_of;
use crate::resolve::{base_alias, get_bases, Opt};
use crate::text::prepend_char;

verus! {

/// `s` with `sep` put between groups of `w` characters, counted from the
/// right; the leftmost group may be shorter. A width of 0 leaves `s` as
/// it is.
pub open spec fn grouped(s: Seq<char>, sep: char, w: nat) -> Seq<char>
    decreases s.len(),
{
    if w == 0 || s.len() <= w {
        s
    } else {
        grouped(s.subrange(0, s.len() - w), sep, w) + seq![sep] + s.subrange(
            s.len() - w,
            s.len() as int,
        )
    }
}

/// `s` with leading zeros up to `w` characters.
pub open spec fn padded(s: Seq<char>, w: nat) -> Seq<char> {
    if s.len() >= w {
        s
    } else {
        Seq::new((w - s.len()) as nat, |i: int| '0') + s
    }
}

/// Inserts `sep` every `width` characters, counted from the right.
pub fn group_digits(digits: &str, sep: char, width: u32) -> (r: String)
    ensures
        r@ == grouped(digits@, sep, width as nat),
{
    let n = digits.unicode_len();
    let ghost s = digits@;
    let mut out = String::new();
    if width == 0 {
        let mut k: usize = n;
        while k > 0
            invariant
                k <= n,
                n == s.len(),
                s == digits@,
                out@ == s.subrange(k as int, n as int),
            decreases k,
        {
            let ghost old_out = out@;
            prepend_char(&mut out, digits.get_char(k - 1));
            assert(out@ =~= s.subrange(k - 1, n as int));
            k = k - 1;
        }
        assert(s.subrange(0, n as int) =~= s);
        return out;
    }
    let w = width as usize;
    let mut i: usize = n;
    assert(s.subrange(0, n as int) =~= s);
    assert(grouped(s, sep, w as nat) + out@ =~= grouped(s, sep, w as nat));
    while i > w
        invariant
            i <= n,
            n == s.len(),
            s == digits@,
            w == width,
            w > 0,
            grouped(s, sep, w as nat) == grouped(s.subrange(0, i as int), sep, w as nat) + out@,
        decreases i,
    {
        let ghost old_out = out@;
        let ghost prefix = s.subrange(0, i as int);
        assert(prefix.subrange(0, i - w) =~= s.subrange(0, i - w));
        assert(prefix.subrange(i - w, i as int) =~= s.subrange(i - w, i as int));
        let lo = i - w;
        let mut j: usize = i;
        while j > lo
            invariant
                lo == i - w,
                lo <= j <= i,
                i <= n,
                n == s.len(),
                s == digits@,
                out@ == s.subrange(j as int, i as int) + old_out,
            decreases j,
        {
            prepend_char(&mut out, digits.get_char(j - 1));
            assert(out@ =~= s.subrange(j - 1, i as int) + old_out);
            j = j - 1;
        }
        prepend_char(&mut out, sep);
        assert(grouped(prefix, sep, w as nat) + old_out =~= grouped(
            s.subrange(0, i - w),
            sep,
            w as nat,
        ) + out@);
        i = i - w;
    }
    let ghost rest = out@;
    let mut k: usize = i;
    while k > 0
        invariant
            k <= i,
            i <= n,
            n == s.len(),
            s == digits@,
            out@ == s.subrange(k as int, i as int) + rest,
        decreases k,
    {
        prepend_char(&mut out, digits.get_char(k - 1));
        assert(out@ =~= s.subrange(k - 1, i as int) + rest);
        k = k - 1;
    }
    assert(out@ =~= s.subrange(0, i as int) + rest);
    out
}

/// Pads `digits` with leading zeros up to `width` characters.
pub fn pad_digits(digits: &str, width: u8) -> (r: String)
    ensures
        r@ == padded(digits@, width as nat),
{
    let n = digits.unicode_len();
    let mut out = digits.to_owned();
    if n >= width as usize {
        return out;
    }
    let mut k: usize = n;
    while k < width as usize
        invariant
            n <= k <= width,
            n == digits@.len(),
            out@ == Seq::new((k - n) as nat, |i: int| '0') + digits@,
        decreases width - k,
    {
        prepend_char(&mut out, '0');
        assert(out@ =~= Seq::new((k + 1 - n) as nat, |i: int| '0') + digits@);
        k = k + 1;
    }
    out
}

/// The `Base NN: ` prefix of a line, with the base in at least two
/// decimal digits.
pub open spec fn base_prefix(b: nat) -> Seq<char> {
    "Base "@ + padded(digits_of(b, 10), 2) + ": "@
}

/// The line printed for output base `target` (written in base 10), or
/// the error that stops the run there.
pub open spec fn rendered_line(num: u128, target: Seq<char>, opt: Opt) -> Result<
    Seq<char>,
    ErrorCode,
> {
    match parse_result(target, 10) {
        Err(_) => Err(ErrorCode::TargetBaseErr),
        Ok(b) => if b > u32::MAX {
            Err(ErrorCode::TargetBaseErr)
        } else if b < 2 || b > 33 {
            Err(ErrorCode::InputBaseErr)
        } else {
            let body = padded(digits_of(num as nat, b as nat), opt.pad as nat);
            let body = if !opt.no_sep && opt.sep_length > 0 {
                grouped(body, opt.sep_char, opt.sep_length as nat)
            } else {
                body
            };
            if opt.bare {
                Ok(body)
            } else {
                Ok(base_prefix(b as nat) + body)
            }
        },
    }
}

/// Formats `num` for one output base `target_base`, written in base 10.
pub fn format_line(num: u128, target_base: &str, opt: &Opt) -> (r: Result<String, ErrorCode>)
    ensures
        match r {
            Ok(s) => rendered_line(num, target_base@, *opt) == Ok::<Seq<char>, ErrorCode>(s@),
            Err(e) => rendered_line(num, target_base@, *opt) == Err::<Seq<char>, ErrorCode>(e),
        },
{
    let parsed = match parse_numeral(target_base, 10) {
        Ok(v) => v,
        Err(_) => {
            return Err(ErrorCode::TargetBaseErr);
        },
    };
    if parsed > u32::MAX as u128 {
        return Err(ErrorCode::TargetBaseErr);
    }
    let base = parsed as u32;
    let digits = match as_string_base(&num, base) {
        Ok(s) => s,
        Err(_) => {
            return Err(ErrorCode::InputBaseErr);
        },
    };
    let body = pad_digits(digits.as_str(), opt.pad);
    let body = if !opt.no_sep && opt.sep_length > 0 {
        group_digits(body.as_str(), opt.sep_char, opt.sep_length)
    } else {
        body
    };
    if opt.bare {
        return Ok(body);
    }
    let base_digits = match as_string_base(&parsed, 10) {
        Ok(s) => s,
        Err(_) => {
            return Err(ErrorCode::InputBaseErr);
        },
    };
    let mut line = "Base ".to_owned();
    line.append(pad_digits(base_digits.as_str(), 2).as_str());
    line.append(": ");
    line.append(body.as_str());
    Ok(line)
}

/// The views of a sequence of strings.
pub open spec fn views(s: Seq<String>) -> Seq<Seq<char>> {
    s.map_values(|x: String| x@)
}

/// Output bases used when none is requested.
pub open spec fn default_bases() -> Seq<Seq<char>> {
    seq!["2"@, "8"@, "10"@, "16"@]
}

/// The input base and literal that the settings resolve to.
pub open spec fn resolved_input(opt: Opt) -> (u32, Option<Seq<char>>) {
    match base_alias(opt.from_base_char@) {
        Some(b) => (b, opt_view(opt.from_num)),
        None => (opt.from_base, Some(opt.from_base_char@)),
    }
}

/// The output bases that the settings resolve to, in order.
pub open spec fn requested_bases(opt: Opt) -> Seq<Seq<char>> {
    let listed = match base_alias(opt.from_base_char@) {
        Some(_) => views(opt.to_bases@),
        None => match opt.from_num {
            Some(a) => seq![a@] + views(opt.to_bases@),
            None => views(opt.to_bases@),
        },
    };
    if listed.len() == 0 {
        default_bases()
    } else {
        listed
    }
}

/// Runs one invocation: resolves the input, converts it, and formats a
/// line for each output base in order. The first failure ends the run.
pub fn run_conversions(opt: &Opt) -> (r: Result<Vec<String>, ErrorCode>)
    ensures
        ({
            let (b, lit) = resolved_input(*opt);
            let targets = requested_bases(*opt);
            match conversion_result(lit, b as nat, opt.sep_char) {
                Err(e) => r == Err::<Vec<String>, ErrorCode>(e),
                Ok(num) => match r {
                    Ok(lines) => {
                        &&& lines@.len() == targets.len()
                        &&& forall|i: int|
                            0 <= i < targets.len() ==> rendered_line(num, #[trigger] targets[i], *opt)
                                == Ok::<Seq<char>, ErrorCode>(lines@[i]@)
                    },
                    Err(e) => exists|i: int|
                        0 <= i < targets.len() && rendered_line(num, #[trigger] targets[i], *opt)
                            == Err::<Seq<char>, ErrorCode>(e) && forall|j: int|
                            0 <= j < i ==> (#[trigger] rendered_line(num, targets[j], *opt)) is Ok,
                },
            }
        }),
{
    let mut to_bases: Vec<String> = opt.to_bases.clone();
    assert(views(to_bases@) =~= views(opt.to_bases@));
    let (from_base, from_num) = get_bases(opt, &mut to_bases);
    if to_bases.len() == 0 {
        to_bases = vec!["2".to_owned(), "8".to_owned(), "10".to_owned(), "16".to_owned()];
    }
    assert(views(to_bases@) =~= requested_bases(*opt));
    let num = match convert_to_base_10(from_num, from_base, opt.sep_char) {
        Ok(v) => v,
        Err(e) => {
            return Err(e);
        },
    };
    let ghost targets = requested_bases(*opt);
    let mut lines: Vec<String> = Vec::new();
    let mut i: usize = 0;
    while i < to_bases.len()
        invariant
            i <= to_bases@.len(),
            targets == views(to_bases@),
            targets == requested_bases(*opt),
            conversion_result(resolved_input(*opt).1, resolved_input(*opt).0 as nat, opt.sep_char)
                == Ok::<u128, ErrorCode>(num),
            lines@.len() == i,
            forall|j: int|
                0 <= j < i ==> rendered_line(num, #[trigger] targets[j], *opt) == Ok::<
                    Seq<char>,
                    ErrorCode,
                >(lines@[j]@),
        decreases to_bases@.len() - i,
    {
        assert(targets[i as int] == to_bases@[i as int]@);
        match format_line(num, to_bases[i].as_str(), opt) {
            Ok(line) => {
                lines.push(line);
            },
            Err(e) => {
                assert(rendered_line(num, targets[i as int], *opt) == Err::<Seq<char>, ErrorCode>(
                    e,
                ));
                assert(forall|j: int|
                    0 <= j < i ==> (#[trigger] rendered_line(num, targets[j], *opt)) is Ok);
                return Err(e);
            },
        }
        i = i + 1;
    }
    Ok(lines)
}

} // verus!
