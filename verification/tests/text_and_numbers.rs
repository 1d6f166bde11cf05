use wlr_trayd::number::{parse_i32, parse_u32, push_decimal, push_signed};
use wlr_trayd::text::{chars_of, lines_of, split_chars, string_of, whitespace, words_of};

fn strings(parts: &[Vec<char>]) -> Vec<String> {
    parts.iter().map(string_of).collect()
}

#[test]
fn whitespace_is_what_the_standard_library_takes_for_it() {
    for c in '\0'..=char::MAX {
        assert_eq!(whitespace(c), c.is_whitespace(), "{:?}", c);
    }
}

#[test]
fn characters_make_the_string_again() {
    for s in ["", "abc", "tab\there", "\u{e9}\u{4e2d}\u{1f600}"] {
        let chars = chars_of(s);
        assert_eq!(chars, s.chars().collect::<Vec<char>>());
        assert_eq!(string_of(&chars), s);
    }
}

#[test]
fn words_are_those_of_split_whitespace() {
    for s in ["", "   ", "list", " list ", "menu-flat 3 -7\n", "a\u{a0}b\u{3000}c", "x\ty\r\nz"] {
        let expected: Vec<String> = s.split_whitespace().map(str::to_string).collect();
        assert_eq!(strings(&words_of(&chars_of(s))), expected, "{:?}", s);
    }
}

#[test]
fn trailing_space_does_not_change_the_words() {
    let bare = words_of(&chars_of("menu 4"));
    assert_eq!(words_of(&chars_of("menu 4 \n")), bare);
    assert_eq!(strings(&bare), ["menu", "4"]);
}

#[test]
fn lines_are_those_of_the_standard_library() {
    for s in ["", "\n", "a", "a\n", "a\nb", "a\r\nb\r", "a\r\n\r\nb\n\n", "\r", "\r\n", "a\rb\n"] {
        let expected: Vec<String> = s.lines().map(str::to_string).collect();
        assert_eq!(strings(&lines_of(&chars_of(s))), expected, "{:?}", s);
    }
}

#[test]
fn fields_are_those_of_split() {
    for s in ["", "\t", "a", "a\tb", "\ta\t\tb\t", "1\t2\t3\t4\t5"] {
        let expected: Vec<String> = s.split('\t').map(str::to_string).collect();
        assert_eq!(strings(&split_chars(&chars_of(s), '\t')), expected, "{:?}", s);
    }
}

#[test]
fn unsigned_numbers_are_read_as_the_standard_library_reads_them() {
    for s in [
        "", "0", "7", "007", "+7", "+", "-", "-0", "-1", "1 ", " 1", "1_0", "x", "4294967295",
        "4294967296", "+4294967295", "99999999999999999999999", "0000000000000000000012", "\u{663}",
    ] {
        assert_eq!(parse_u32(&chars_of(s)), s.parse::<u32>().ok(), "{:?}", s);
    }
}

#[test]
fn signed_numbers_are_read_as_the_standard_library_reads_them() {
    for s in [
        "", "0", "-0", "+0", "-", "+", "+-1", "-7", "+7", "2147483647", "2147483648",
        "-2147483648", "-2147483649", "-99999999999999999999999", "12a", "--1",
    ] {
        assert_eq!(parse_i32(&chars_of(s)), s.parse::<i32>().ok(), "{:?}", s);
    }
}

#[test]
fn written_numbers_are_read_back() {
    for n in [0u32, 1, 9, 10, 99, 100, 4_294_967_295] {
        let mut s = String::new();
        push_decimal(&mut s, n as u64);
        assert_eq!(s, n.to_string());
        assert_eq!(parse_u32(&chars_of(&s)), Some(n));
    }
    for n in [0i32, 5, -5, 10, -10, i32::MAX, i32::MIN] {
        let mut s = String::from("n=");
        push_signed(&mut s, n);
        assert_eq!(s, format!("n={}", n));
        assert_eq!(parse_i32(&chars_of(&s[2..])), Some(n));
    }
}
