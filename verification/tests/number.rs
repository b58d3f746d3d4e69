use minreq::number::{parse_i32, parse_u64, parse_usize};

const TEXTS: [&str; 24] = [
    "", "+", "-", "0", "-0", "+0", "7", "+7", "-7", "007", " 7", "7 ", "a", "ff", "FF", "+fF", "-ff",
    "2147483647", "2147483648", "-2147483648", "-2147483649", "18446744073709551615",
    "18446744073709551616", "0000000000000000000000000000000000042",
];

#[test]
fn numbers_are_parsed_as_the_standard_library_does() {
    for text in TEXTS {
        assert_eq!(parse_i32(text), text.parse::<i32>().ok(), "{:?}", text);
        assert_eq!(parse_u64(text), text.parse::<u64>().ok(), "{:?}", text);
        assert_eq!(parse_usize(text, 10), text.parse::<usize>().ok(), "{:?}", text);
        assert_eq!(parse_usize(text, 16), usize::from_str_radix(text, 16).ok(), "{:?}", text);
    }
}
