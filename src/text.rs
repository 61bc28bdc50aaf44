//! Character-level string building shared by the converter and the
//! formatter.
use vstd::prelude::*;

verus! {

/// Relies on `String::insert` at index 0, which is always a character
/// boundary: the character is put in front of the existing text.
#[verifier::external_body]
pub(crate) fn prepend_char(s: &mut String, c: char)
    ensures
        final(s)@ == seq![c] + old(s)@,
{
    s.insert(0, c);
}

/// `s` with every occurrence of `c` taken out.
pub open spec fn without_char(s: Seq<char>, c: char) -> Seq<char>
    decreases s.len(),
{
    if s.len() == 0 {
        s
    } else if s[0] == c {
        without_char(s.drop_first(), c)
    } else {
        seq![s[0]] + without_char(s.drop_first(), c)
    }
}

/// Copy of `s` with every occurrence of `c` removed.
pub fn remove_char(s: &str, c: char) -> (r: String)
    ensures
        r@ == without_char(s@, c),
{
    let n = s.unicode_len();
    let mut out = String::new();
    let mut i: usize = n;
    while i > 0
        invariant
            i <= n,
            n == s@.len(),
            out@ == without_char(s@.subrange(i as int, n as int), c),
        decreases i,
    {
        let ch = s.get_char(i - 1);
        assert(s@.subrange(i - 1, n as int).drop_first() =~= s@.subrange(i as int, n as int));
        if ch != c {
            prepend_char(&mut out, ch);
        }
        i = i - 1;
    }
    assert(s@.subrange(0, n as int) =~= s@);
    out
}

} // verus!
