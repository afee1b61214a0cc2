//! Numerals: writing a number in a radix, and reading one back.

use vstd::prelude::*;
use vstd::string::StringExecFns;

verus! {

/// `String::push`: one character more at the end.
pub assume_specification[ String::push ](s: &mut String, c: char)
    ensures
        final(s)@ == old(s)@.push(c),
;

/// The characters of a string, in order.
pub fn chars_of(s: &str) -> (chars: Vec<char>)
    ensures
        chars@ == s@,
{
    let mut chars: Vec<char> = Vec::new();
    for c in it: s.chars()
        invariant
            it.seq() == s@,
            chars@ == it.seq().take(it.index() as int),
    {
        chars.push(c);
    }
    chars
}

/// Whether two vectors hold the same characters.
pub fn same_chars(a: &Vec<char>, b: &Vec<char>) -> (r: bool)
    ensures
        r == (a@ == b@),
{
    if a.len() != b.len() {
        return false;
    }
    let mut i: usize = 0;
    while i < a.len()
        invariant
            a.len() == b.len(),
            i <= a.len(),
            a@.take(i as int) == b@.take(i as int),
        decreases a.len() - i,
    {
        if a[i] != b[i] {
            return false;
        }
        assert(a@.take(i + 1) =~= a@.take(i as int).push(a@[i as int]));
        assert(b@.take(i + 1) =~= b@.take(i as int).push(b@[i as int]));
        i = i + 1;
    }
    assert(a@.take(a.len() as int) =~= a@);
    assert(b@.take(b.len() as int) =~= b@);
    true
}

/// The string made of the given characters, in order.
pub fn string_of(chars: &Vec<char>) -> (s: String)
    ensures
        s@ == chars@,
{
    let mut s = String::new();
    let mut i: usize = 0;
    while i < chars.len()
        invariant
            i <= chars.len(),
            s@ == chars@.take(i as int),
        decreases chars.len() - i,
    {
        s.push(chars[i]);
        assert(chars@.take(i + 1) =~= chars@.take(i as int).push(chars@[i as int]));
        i = i + 1;
    }
    assert(chars@.take(chars.len() as int) =~= chars@);
    s
}

/// The character that stands for the digit `d`: `0` to `9`, then `a`, `b` and so on
/// through the character codes.
pub open spec fn digit_char(d: nat) -> char {
    if d < 10 {
        ((48 + d) as u8) as char
    } else {
        ((87 + d) as u8) as char
    }
}

/// The numeral of `n` in the radix `base`, most significant digit first, without leading
/// zeros; zero is written as one digit.
pub open spec fn numeral(n: nat, base: nat) -> Seq<char>
    decreases n,
{
    if base < 2 || n < base {
        seq![digit_char(n)]
    } else {
        proof {
            assert(n / base < n) by (nonlinear_arith)
                requires
                    base >= 2,
                    n >= base,
            ;
        }
        numeral(n / base, base).push(digit_char(n % base))
    }
}

/// The character that stands for a digit below 169.
pub fn digit_to_char(d: u32) -> (c: char)
    requires
        d < 169,
    ensures
        c == digit_char(d as nat),
{
    if d < 10 {
        (d as u8 + 48) as char
    } else {
        (d as u8 - 10 + 97) as char
    }
}

/// The numeral of `n` in the radix `base`.
pub fn to_radix(n: u32, base: u32) -> (s: String)
    requires
        2 <= base <= 169,
    ensures
        s@ == numeral(n as nat, base as nat),
{
    let mut reversed: Vec<char> = Vec::new();
    let mut num = n;
    if num == 0 {
        reversed.push(digit_to_char(0));
    }
    while num > 0
        invariant
            2 <= base <= 169,
            num > 0 ==> numeral(n as nat, base as nat) == numeral(num as nat, base as nat)
                + reversed@.reverse(),
            num == 0 ==> numeral(n as nat, base as nat) == reversed@.reverse(),
        decreases num,
    {
        let remainder = num % base;
        let ghost before = reversed@;
        reversed.push(digit_to_char(remainder));
        assert(reversed@.reverse() =~= seq![digit_char(remainder as nat)] + before.reverse());
        proof {
            if num >= base {
                assert(num / base > 0) by (nonlinear_arith)
                    requires
                        num >= base,
                        base >= 2,
                ;
                assert(numeral(num as nat, base as nat) + before.reverse() =~= numeral(
                    (num / base) as nat,
                    base as nat,
                ) + reversed@.reverse());
            } else {
                assert(num / base == 0) by (nonlinear_arith)
                    requires
                        num < base,
                        base >= 2,
                ;
                assert(num % base == num) by (nonlinear_arith)
                    requires
                        num < base,
                        base >= 2,
                ;
            }
        }
        num = num / base;
    }
    let mut s = String::new();
    let mut left: usize = reversed.len();
    while left > 0
        invariant
            left <= reversed.len(),
            s@ == reversed@.reverse().take(reversed.len() - left),
        decreases left,
    {
        left = left - 1;
        s.push(reversed[left]);
        assert(reversed@.reverse().take(reversed.len() - left) =~= reversed@.reverse().take(
            reversed.len() - left - 1,
        ).push(reversed@[left as int]));
    }
    assert(reversed@.reverse().take(reversed.len() as int) =~= reversed@.reverse());
    s
}

/// The value of a character as a digit: `0` to `9` stand for themselves, the letters `a`
/// to `z`, small or capital, for ten to thirty-five. Other characters are no digits.
pub open spec fn digit_value(c: char) -> Option<nat> {
    if '0' <= c <= '9' {
        Some((c as nat - 48) as nat)
    } else if 'a' <= c <= 'z' {
        Some((c as nat - 87) as nat)
    } else if 'A' <= c <= 'Z' {
        Some((c as nat - 55) as nat)
    } else {
        None
    }
}

/// The character is a digit of the radix.
pub open spec fn is_digit_of(c: char, radix: nat) -> bool {
    digit_value(c) matches Some(d) && d < radix
}

/// Every character is a digit of the radix.
pub open spec fn all_digits(s: Seq<char>, radix: nat) -> bool {
    forall|i: int| 0 <= i < s.len() ==> #[trigger] is_digit_of(s[i], radix)
}

/// The number that the digits stand for in the radix, most significant digit first.
pub open spec fn digits_number(s: Seq<char>, radix: nat) -> nat
    decreases s.len(),
{
    if s.len() == 0 {
        0
    } else {
        digits_number(s.drop_last(), radix) * radix + match digit_value(s.last()) {
            Some(d) => d,
            None => 0,
        }
    }
}

/// The digits of a numeral: the numeral without the plus sign that may stand before it.
pub open spec fn unsigned_part(s: Seq<char>) -> Seq<char> {
    if s.len() > 0 && s[0] == '+' {
        s.drop_first()
    } else {
        s
    }
}

/// The number that a numeral stands for in the radix, if it is one and fits in 32 bits: an
/// optional plus sign, then one digit of the radix or more, nothing else.
pub open spec fn parse_numeral(s: Seq<char>, radix: nat) -> Option<u32> {
    let digits = unsigned_part(s);
    if digits.len() > 0 && all_digits(digits, radix) && digits_number(digits, radix) <= u32::MAX {
        Some(digits_number(digits, radix) as u32)
    } else {
        None
    }
}

/// Digits that are added at the end never make the number smaller.
pub proof fn lemma_digits_number_grows(s: Seq<char>, radix: nat, len: int)
    requires
        radix >= 1,
        0 <= len <= s.len(),
    ensures
        digits_number(s.take(len), radix) <= digits_number(s, radix),
    decreases s.len(),
{
    if len < s.len() {
        lemma_digits_number_grows(s.drop_last(), radix, len);
        assert(s.drop_last().take(len) =~= s.take(len));
        let shorter = digits_number(s.drop_last(), radix);
        assert(shorter <= shorter * radix) by (nonlinear_arith)
            requires
                radix >= 1,
        ;
    } else {
        assert(s.take(len) =~= s);
    }
}

/// The value of a character as a digit of the radix, if it is one.
pub fn char_to_digit(c: char, radix: u32) -> (r: Option<u32>)
    requires
        2 <= radix <= 36,
    ensures
        r matches Some(d) ==> digit_value(c) == Some(d as nat) && d < radix,
        r is Some <==> is_digit_of(c, radix as nat),
{
    let code = c as u32;
    let value: u32 = if 48 <= code && code <= 57 {
        code - 48
    } else if 97 <= code && code <= 122 {
        code - 87
    } else if 65 <= code && code <= 90 {
        code - 55
    } else {
        return None;
    };
    if value < radix {
        Some(value)
    } else {
        None
    }
}

/// Reads the numeral made of the characters from `from` up to `to`, in the radix.
pub fn parse_radix(chars: &Vec<char>, from: usize, to: usize, radix: u32) -> (r: Option<u32>)
    requires
        from <= to <= chars.len(),
        2 <= radix <= 36,
    ensures
        r == parse_numeral(chars@.subrange(from as int, to as int), radix as nat),
{
    let ghost s = chars@.subrange(from as int, to as int);
    let mut i = from;
    if i < to && chars[i] == '+' {
        i = i + 1;
    }
    let ghost digits = unsigned_part(s);
    assert(digits =~= chars@.subrange(i as int, to as int));
    if i == to {
        return None;
    }
    let first = i;
    let mut value: u64 = 0;
    while i < to
        invariant
            from <= first <= i <= to <= chars.len(),
            first < to,
            2 <= radix <= 36,
            digits == chars@.subrange(first as int, to as int),
            digits == unsigned_part(chars@.subrange(from as int, to as int)),
            all_digits(digits.take(i - first), radix as nat),
            value == digits_number(digits.take(i - first), radix as nat),
            value <= u32::MAX,
        decreases to - i,
    {
        let ghost shorter = digits.take(i - first);
        let ghost longer = digits.take(i - first + 1);
        assert(longer.drop_last() =~= shorter);
        assert(longer.last() == chars@[i as int]);
        match char_to_digit(chars[i], radix) {
            Some(d) => {
                assert(value * radix + d <= 0xffff_ffff * 36 + 36) by (nonlinear_arith)
                    requires
                        value <= 0xffff_ffff,
                        radix <= 36,
                        d < radix,
                ;
                value = value * (radix as u64) + d as u64;
                assert(value == digits_number(longer, radix as nat));
                assert(all_digits(longer, radix as nat)) by {
                    assert forall|j: int| 0 <= j < longer.len() implies #[trigger] is_digit_of(
                        longer[j],
                        radix as nat,
                    ) by {
                        if j < shorter.len() {
                            assert(longer[j] == shorter[j]);
                        }
                    }
                }
                if value > 0xffff_ffff {
                    proof {
                        lemma_digits_number_grows(digits, radix as nat, i - first + 1);
                    }
                    return None;
                }
            },
            None => {
                assert(digits[i - first] == chars@[i as int]);
                assert(!is_digit_of(digits[i - first], radix as nat));
                return None;
            },
        }
        i = i + 1;
    }
    assert(digits.take(to - first) =~= digits);
    Some(value as u32)
}

/// The decimal numerals of the numbers, in order, with a comma between any two.
pub open spec fn comma_separated(numbers: Seq<u32>) -> Seq<char>
    decreases numbers.len(),
{
    if numbers.len() == 0 {
        Seq::empty()
    } else if numbers.len() == 1 {
        numeral(numbers[0] as nat, 10)
    } else {
        comma_separated(numbers.drop_last()) + seq![','] + numeral(numbers.last() as nat, 10)
    }
}

/// Writes the numbers in decimal, in order, with a comma between any two.
pub fn join_numbers(numbers: &Vec<u32>) -> (s: String)
    ensures
        s@ == comma_separated(numbers@),
{
    let mut s = String::new();
    let mut i: usize = 0;
    while i < numbers.len()
        invariant
            i <= numbers.len(),
            s@ == comma_separated(numbers@.take(i as int)),
        decreases numbers.len() - i,
    {
        if i > 0 {
            s.push(',');
        }
        let text = to_radix(numbers[i], 10);
        s.append(text.as_str());
        proof {
            let longer = numbers@.take(i + 1);
            assert(longer.drop_last() =~= numbers@.take(i as int));
            assert(longer.last() == numbers@[i as int]);
            if i == 0 {
                assert(longer[0] == numbers@[0]);
                assert(s@ =~= numeral(numbers@[0] as nat, 10));
            }
        }
        i = i + 1;
    }
    assert(numbers@.take(numbers.len() as int) =~= numbers@);
    s
}

/// The items that `separator` parts `s` into, in order. There is always one item at least,
/// and an item may be empty.
pub open spec fn split(s: Seq<char>, separator: char) -> Seq<Seq<char>>
    decreases s.len(),
{
    if s.len() == 0 {
        seq![Seq::<char>::empty()]
    } else {
        let items = split(s.drop_last(), separator);
        if s.last() == separator {
            items.push(Seq::<char>::empty())
        } else {
            items.update(items.len() - 1, items.last().push(s.last()))
        }
    }
}

/// What the vectors hold, vector by vector.
pub open spec fn views(items: Seq<Vec<char>>) -> Seq<Seq<char>> {
    items.map_values(|item: Vec<char>| item@)
}

/// A list has one item at least.
pub proof fn lemma_split_is_not_empty(s: Seq<char>, separator: char)
    ensures
        split(s, separator).len() >= 1,
    decreases s.len(),
{
    if s.len() > 0 {
        lemma_split_is_not_empty(s.drop_last(), separator);
    }
}

/// Parts the characters at every `separator`.
pub fn split_chars(chars: &Vec<char>, separator: char) -> (items: Vec<Vec<char>>)
    ensures
        views(items@) == split(chars@, separator),
{
    let mut items: Vec<Vec<char>> = Vec::new();
    let mut current: Vec<char> = Vec::new();
    let mut i: usize = 0;
    assert(chars@.take(0) =~= Seq::<char>::empty());
    assert(views(items@) =~= split(chars@.take(0), separator).drop_last());
    while i < chars.len()
        invariant
            i <= chars.len(),
            current@ == split(chars@.take(i as int), separator).last(),
            views(items@) == split(chars@.take(i as int), separator).drop_last(),
        decreases chars.len() - i,
    {
        let ghost before = split(chars@.take(i as int), separator);
        let ghost longer = chars@.take(i + 1);
        proof {
            lemma_split_is_not_empty(chars@.take(i as int), separator);
            assert(longer.drop_last() =~= chars@.take(i as int));
            assert(longer.last() == chars@[i as int]);
        }
        if chars[i] == separator {
            let ghost held = views(items@);
            items.push(current);
            current = Vec::new();
            proof {
                assert(before.drop_last().push(before.last()) =~= before);
                assert(views(items@) =~= held.push(before.last()));
                assert(split(longer, separator).drop_last() =~= before);
            }
        } else {
            current.push(chars[i]);
            proof {
                assert(split(longer, separator).drop_last() =~= before.drop_last());
            }
        }
        i = i + 1;
    }
    let ghost all = split(chars@, separator);
    let ghost held = views(items@);
    proof {
        assert(chars@.take(chars.len() as int) =~= chars@);
        lemma_split_is_not_empty(chars@, separator);
        assert(all.drop_last().push(all.last()) =~= all);
    }
    items.push(current);
    assert(views(items@) =~= held.push(all.last()));
    items
}

} // verus!
