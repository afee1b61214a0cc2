//! Conversion of a numeral from one radix to another. The input names its own radix in
//! brackets behind the digits, as in `1010(2)`.

use crate::text::{chars_of, numeral, parse_numeral, parse_radix, to_radix};
use vstd::prelude::*;

verus! {

/// `c` stands at `p` in `s` and nowhere else.
pub open spec fn is_only_occurrence(s: Seq<char>, c: char, p: int) -> bool {
    &&& 0 <= p < s.len()
    &&& s[p] == c
    &&& forall|i: int| 0 <= i < s.len() && i != p ==> s[i] != c
}

/// `c` occurs exactly once in `s`.
pub open spec fn occurs_once(s: Seq<char>, c: char) -> bool {
    exists|p: int| is_only_occurrence(s, c, p)
}

/// Where `c` stands in `s`, if it occurs exactly once.
pub open spec fn only_occurrence(s: Seq<char>, c: char) -> int {
    choose|p: int| is_only_occurrence(s, c, p)
}

/// `s` without the run of `c` at its end.
pub open spec fn trim_end(s: Seq<char>, c: char) -> Seq<char>
    decreases s.len(),
{
    if s.len() > 0 && s.last() == c {
        trim_end(s.drop_last(), c)
    } else {
        s
    }
}

/// The digits of the input: what stands before the opening bracket.
pub open spec fn source_digits(input: Seq<char>) -> Seq<char> {
    input.take(only_occurrence(input, '('))
}

/// The radix that the input names: the decimal numeral between the opening bracket and the
/// closing brackets at the end; ten where there is no such numeral.
pub open spec fn source_base(input: Seq<char>) -> u32 {
    match parse_numeral(trim_end(input.skip(only_occurrence(input, '(') + 1), ')'), 10) {
        Some(base) => base,
        None => 10,
    }
}

/// The number that the input stands for: its digits read in its radix; zero where they are
/// no numeral of that radix that fits in 32 bits.
pub open spec fn source_number(input: Seq<char>) -> u32 {
    match parse_numeral(source_digits(input), source_base(input) as nat) {
        Some(number) => number,
        None => 0,
    }
}

/// Splits the input into its digits and the radix that it names.
pub fn parse_input(input: &str) -> (r: (String, u32))
    requires
        occurs_once(input@, '('),
    ensures
        r.0@ == source_digits(input@),
        r.1 == source_base(input@),
{
    let chars = chars_of(input);
    let ghost witness = only_occurrence(input@, '(');
    let mut open: usize = 0;
    while open < chars.len() && chars[open] != '('
        invariant
            chars@ == input@,
            is_only_occurrence(input@, '(', witness),
            open <= witness,
        decreases chars.len() - open,
    {
        open = open + 1;
    }
    assert(open == witness);
    let mut end: usize = chars.len();
    assert(chars@.subrange(open + 1, end as int) =~= chars@.skip(open + 1));
    while end > open + 1 && chars[end - 1] == ')'
        invariant
            open < end <= chars.len(),
            trim_end(chars@.skip(open + 1), ')') == trim_end(
                chars@.subrange(open + 1, end as int),
                ')',
            ),
        decreases end,
    {
        assert(chars@.subrange(open + 1, end as int).drop_last() =~= chars@.subrange(
            open + 1,
            end - 1,
        ));
        end = end - 1;
    }
    let base = match parse_radix(&chars, open + 1, end, 10) {
        Some(base) => base,
        None => 10,
    };
    let mut digits = String::new();
    let mut i: usize = 0;
    while i < open
        invariant
            i <= open < chars.len(),
            digits@ == chars@.take(i as int),
        decreases open - i,
    {
        digits.push(chars[i]);
        assert(chars@.take(i + 1) =~= chars@.take(i as int).push(chars@[i as int]));
        i = i + 1;
    }
    (digits, base)
}

/// Rewrites the numeral that the input holds, with the radix that it names, in the radix
/// `to_base`. Digits beyond nine are written as small letters.
pub fn convert_base(num_str: &str, to_base: u32) -> (r: String)
    requires
        occurs_once(num_str@, '('),
        2 <= source_base(num_str@) <= 36,
        2 <= to_base <= 169,
    ensures
        r@ == numeral(source_number(num_str@) as nat, to_base as nat),
{
    let (digits, from_base) = parse_input(num_str);
    let chars = chars_of(digits.as_str());
    assert(chars@.subrange(0, chars.len() as int) =~= chars@);
    let decimal = match parse_radix(&chars, 0, chars.len(), from_base) {
        Some(number) => number,
        None => 0,
    };
    to_radix(decimal, to_base)
}

} // verus!
