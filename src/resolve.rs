//! The base resolver: works out which base the input numeral is written
//! in, from positional arguments that may have shifted by one slot.
use vstd::prelude::*;

verus! {

/// The settings of one invocation.
#[derive(Debug, Clone)]
pub struct Opt {
    /// Minimum width of each rendered numeral, padded with leading zeros.
    pub pad: u8,
    /// Characters between separators, counted from the right.
    pub sep_length: u32,
    /// Separator between digit groups, also skipped when parsing.
    pub sep_char: char,
    /// Turns digit grouping off.
    pub no_sep: bool,
    /// Input base used when `from_base_char` is no alias.
    pub from_base: u32,
    /// Compute only, print nothing.
    pub silent: bool,
    /// Leave out the `Base NN: ` prefix.
    pub bare: bool,
    /// How much to report about the invocation.
    pub verbosity: u8,
    /// A base alias, or the numeral itself when no alias was given.
    pub from_base_char: String,
    /// The numeral, or the first output base when no alias was given.
    pub from_num: Option<String>,
    /// Output bases, written in base 10.
    pub to_bases: Vec<String>,
}

/// The base that an alias stands for: `b` binary, `o` octal, `d`
/// decimal, `h` or `x` hexadecimal.
pub open spec fn base_alias(s: Seq<char>) -> Option<u32> {
    if s.len() != 1 {
        None
    } else if s[0] == 'b' {
        Some(2)
    } else if s[0] == 'o' {
        Some(8)
    } else if s[0] == 'd' {
        Some(10)
    } else if s[0] == 'h' || s[0] == 'x' {
        Some(16)
    } else {
        None
    }
}

/// Looks up a base alias.
pub fn get_from_base(from_base: &str) -> (r: Option<u32>)
    ensures
        r == base_alias(from_base@),
{
    if from_base.unicode_len() != 1 {
        return None;
    }
    let c = from_base.get_char(0);
    if c == 'b' {
        Some(2)
    } else if c == 'o' {
        Some(8)
    } else if c == 'd' {
        Some(10)
    } else if c == 'h' || c == 'x' {
        Some(16)
    } else {
        None
    }
}

/// Resolves the input base and the literal to convert.
///
/// With an alias in `from_base_char`, that alias gives the base and
/// `from_num` is the literal; the output bases stay as they are.
/// Without one, the arguments have shifted by one slot: `from_base`
/// gives the base, `from_base_char` is the literal, and `from_num`, if
/// any, goes to the front of the output bases.
pub fn get_bases(opt: &Opt, to_bases: &mut Vec<String>) -> (r: (u32, Option<String>))
    ensures
        match base_alias(opt.from_base_char@) {
            Some(b) => {
                &&& r.0 == b
                &&& r.1 == opt.from_num
                &&& final(to_bases)@ == old(to_bases)@
            },
            None => {
                &&& r.0 == opt.from_base
                &&& r.1 == Some(opt.from_base_char)
                &&& final(to_bases)@ == match opt.from_num {
                    Some(a) => seq![a] + old(to_bases)@,
                    None => old(to_bases)@,
                }
            },
        },
{
    match get_from_base(opt.from_base_char.as_str()) {
        Some(v) => (v, opt.from_num.clone()),
        None => {
            if let Some(a_base) = &opt.from_num {
                to_bases.insert(0, a_base.clone());
                assert(to_bases@ =~= seq![*a_base] + old(to_bases)@);
            }
            (opt.from_base, Some(opt.from_base_char.clone()))
        },
    }
}

} // verus!
