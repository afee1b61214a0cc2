use exercises::converter::{convert_base, parse_input};
use exercises::text::{chars_of, join_numbers, parse_radix, same_chars, string_of, to_radix};

#[test]
fn converts_between_bases() {
    assert_eq!(convert_base("1010(2)", 10), "10");
    assert_eq!(convert_base("10(10)", 2), "1010");
    assert_eq!(convert_base("ff(16)", 2), "11111111");
    assert_eq!(convert_base("FF(16)", 10), "255");
    assert_eq!(convert_base("255(10)", 16), "ff");
    assert_eq!(convert_base("zz(36)", 10), "1295");
    assert_eq!(convert_base("1295(10)", 36), "zz");
    assert_eq!(convert_base("777(8)", 8), "777");
    assert_eq!(convert_base("4294967295(10)", 16), "ffffffff");
    assert_eq!(convert_base("+42(10)", 10), "42");
    assert_eq!(convert_base("00012(10)", 10), "12");
}

#[test]
fn zero_is_one_digit() {
    assert_eq!(convert_base("0(10)", 2), "0");
    assert_eq!(convert_base("000(2)", 36), "0");
}

#[test]
fn unreadable_digits_count_as_zero() {
    assert_eq!(convert_base("12(2)", 10), "0");
    assert_eq!(convert_base("(10)", 10), "0");
    assert_eq!(convert_base("+(10)", 10), "0");
    assert_eq!(convert_base("-5(10)", 10), "0");
    assert_eq!(convert_base("1 0(10)", 10), "0");
    assert_eq!(convert_base("4294967296(10)", 10), "0");
    assert_eq!(convert_base("99999999999999999999(10)", 10), "0");
}

#[test]
fn unreadable_base_counts_as_ten() {
    assert_eq!(convert_base("15()", 2), "1111");
    assert_eq!(convert_base("15(", 16), "f");
    assert_eq!(convert_base("15(x)", 2), "1111");
    assert_eq!(convert_base("15(8)))", 10), "13");
    assert_eq!(convert_base("15(8)x", 10), "15");
}

#[test]
fn digits_beyond_thirty_five_follow_the_letters() {
    assert_eq!(convert_base("36(10)", 37), "{");
    assert_eq!(convert_base("168(10)", 169), "\u{ff}");
    assert_eq!(convert_base("169(10)", 169), "10");
}

#[test]
fn parse_input_splits_digits_and_base() {
    assert_eq!(parse_input("1010(2)"), (String::from("1010"), 2));
    assert_eq!(parse_input("abc(16)"), (String::from("abc"), 16));
    assert_eq!(parse_input("(7)"), (String::new(), 7));
    assert_eq!(parse_input("12("), (String::from("12"), 10));
    assert_eq!(parse_input("12(99))"), (String::from("12"), 99));
    assert_eq!(parse_input("12())5)"), (String::from("12"), 10));
    assert_eq!(parse_input("é(+3)"), (String::from("é"), 3));
}

#[test]
fn numerals_are_written_most_significant_digit_first() {
    assert_eq!(to_radix(0, 2), "0");
    assert_eq!(to_radix(5, 2), "101");
    assert_eq!(to_radix(u32::MAX, 2), "1".repeat(32));
    assert_eq!(to_radix(u32::MAX, 10), "4294967295");
    assert_eq!(to_radix(35, 36), "z");
    assert_eq!(to_radix(36, 36), "10");
    for n in 0u32..2000 {
        assert_eq!(to_radix(n, 10), n.to_string());
        assert_eq!(to_radix(n, 16), format!("{:x}", n));
        assert_eq!(to_radix(n, 8), format!("{:o}", n));
    }
}

#[test]
fn numerals_are_read_as_the_standard_library_reads_them() {
    let samples = [
        "", "+", "-", "0", "+0", "-0", "12", "+12", "++12", "12+", " 12", "12 ", "1_2", "ff", "FF",
        "fF", "zz", "Zz", "4294967295", "4294967296", "00000000004294967295", "99999999999", "é",
        "１２", "g", "10", "1111111111111111111111111111111111", "3w5e11264sg", "1z141z4",
    ];
    for radix in 2u32..=36 {
        for sample in samples {
            let chars: Vec<char> = sample.chars().collect();
            assert_eq!(
                parse_radix(&chars, 0, chars.len(), radix),
                u32::from_str_radix(sample, radix).ok(),
            );
        }
    }
}

#[test]
fn numerals_are_read_from_a_part_of_the_characters() {
    let chars: Vec<char> = "ab123cd".chars().collect();
    assert_eq!(parse_radix(&chars, 2, 5, 10), Some(123));
    assert_eq!(parse_radix(&chars, 2, 6, 10), None);
    assert_eq!(parse_radix(&chars, 2, 6, 16), Some(0x123c));
    assert_eq!(parse_radix(&chars, 3, 3, 10), None);
    assert_eq!(parse_radix(&chars, 0, 7, 16), Some(0xab123cd));
}

#[test]
fn characters_and_strings_convert_both_ways() {
    assert_eq!(chars_of("a,é(1)"), vec!['a', ',', 'é', '(', '1', ')']);
    assert_eq!(chars_of(""), Vec::<char>::new());
    assert_eq!(string_of(&vec!['x', 'ß', '3']), "xß3");
    assert_eq!(string_of(&vec![]), "");
}

#[test]
fn numbers_are_joined_with_commas() {
    assert_eq!(join_numbers(&vec![]), "");
    assert_eq!(join_numbers(&vec![7]), "7");
    assert_eq!(join_numbers(&vec![5777, 5993]), "5777,5993");
    assert_eq!(join_numbers(&vec![0, 10, 4294967295]), "0,10,4294967295");
}

#[test]
fn characters_are_compared_one_by_one() {
    assert!(same_chars(&vec![], &vec![]));
    assert!(same_chars(&vec!['a', 'é'], &vec!['a', 'é']));
    assert!(!same_chars(&vec!['a', 'é'], &vec!['a', 'e']));
    assert!(!same_chars(&vec!['a'], &vec!['a', 'a']));
    assert!(!same_chars(&vec!['a', 'b'], &vec!['b', 'a']));
}
