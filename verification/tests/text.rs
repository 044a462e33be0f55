use adbackup::text::{
    chars_of, ends, find, lines_of, occurs, push_decimal, same, space, split_at_each, starts,
    string_of, trimmed,
};

fn chars(text: &str) -> Vec<char> {
    text.chars().collect()
}

fn strings(rows: Vec<Vec<char>>) -> Vec<String> {
    rows.iter().map(|row| row.iter().collect()).collect()
}

#[test]
fn text_goes_to_characters_and_back() {
    assert_eq!(chars_of("aé\u{1F600}z"), vec!['a', 'é', '\u{1F600}', 'z']);
    assert_eq!(chars_of(""), Vec::<char>::new());
    assert_eq!(string_of(&chars("aé\u{1F600}z")), "aé\u{1F600}z");
    assert_eq!(string_of(&Vec::new()), "");
}

#[test]
fn find_gives_the_first_occurrence() {
    let hay = chars("abcabcabc");
    assert_eq!(find(&hay, &chars("bc"), 0), Some(1));
    assert_eq!(find(&hay, &chars("bc"), 1), Some(1));
    assert_eq!(find(&hay, &chars("bc"), 2), Some(4));
    assert_eq!(find(&hay, &chars("bc"), 8), None);
    assert_eq!(find(&hay, &chars("bc"), 100), None);
    assert_eq!(find(&hay, &chars("abcabcabcd"), 0), None);
    assert_eq!(find(&hay, &chars(""), 9), Some(9));
    assert_eq!(find(&hay, &chars(""), 10), None);
    assert!(occurs(&hay, &chars("cab")));
    assert!(!occurs(&hay, &chars("cc")));
    assert!(occurs(&chars(""), &chars("")));
}

#[test]
fn split_cuts_at_each_occurrence() {
    assert_eq!(strings(split_at_each(&chars("a,b,,c"), &chars(","))), vec!["a", "b", "", "c"]);
    assert_eq!(strings(split_at_each(&chars(",a,"), &chars(","))), vec!["", "a", ""]);
    assert_eq!(strings(split_at_each(&chars(""), &chars(","))), vec![""]);
    assert_eq!(strings(split_at_each(&chars("aaa"), &chars("aa"))), vec!["", "a"]);
    assert_eq!(strings(split_at_each(&chars("abc"), &chars(""))), vec!["abc"]);
    assert_eq!(strings(split_at_each(&chars("a--b"), &chars("--"))), vec!["a", "b"]);
}

#[test]
fn lines_end_with_a_line_feed() {
    assert_eq!(strings(lines_of(&chars("a\nb\r\nc"))), vec!["a", "b", "c"]);
    assert_eq!(strings(lines_of(&chars("a\n\nb\n"))), vec!["a", "", "b"]);
    assert_eq!(strings(lines_of(&chars(""))), Vec::<String>::new());
    assert_eq!(strings(lines_of(&chars("\n"))), vec![""]);
    assert_eq!(strings(lines_of(&chars("a\r"))), vec!["a\r"]);
    assert_eq!(strings(lines_of(&chars("a\r\r\n"))), vec!["a\r"]);
    for text in ["a\nb\r\nc", "a\n\nb\n", "", "\n", "a\r", "a\r\r\n", "\r\n\r\n", "x\ny"] {
        let expected: Vec<String> = text.lines().map(|l| l.to_string()).collect();
        assert_eq!(strings(lines_of(&chars(text))), expected);
    }
}

#[test]
fn trimming_removes_white_space_at_both_ends() {
    assert_eq!(string_of(&trimmed(&chars("  a b \t\r\n"))), "a b");
    assert_eq!(string_of(&trimmed(&chars(" \u{a0}\u{3000} "))), "");
    assert_eq!(string_of(&trimmed(&chars(""))), "");
    assert_eq!(string_of(&trimmed(&chars("x"))), "x");
    assert_eq!(string_of(&trimmed(&chars("\u{200b}x"))), "\u{200b}x");
}

#[test]
fn white_space_is_what_the_standard_says() {
    for code in 0..0x3100u32 {
        if let Some(c) = char::from_u32(code) {
            assert_eq!(space(c), c.is_whitespace());
        }
    }
}

#[test]
fn comparing_texts() {
    assert!(same(&chars("abc"), &chars("abc")));
    assert!(!same(&chars("abc"), &chars("abd")));
    assert!(!same(&chars("abc"), &chars("ab")));
    assert!(same(&chars(""), &chars("")));
    assert!(starts(&chars("abc"), &chars("ab")));
    assert!(starts(&chars("abc"), &chars("")));
    assert!(!starts(&chars("abc"), &chars("bc")));
    assert!(!starts(&chars("a"), &chars("ab")));
    assert!(ends(&chars("abc"), &chars("bc")));
    assert!(ends(&chars("abc"), &chars("")));
    assert!(!ends(&chars("abc"), &chars("ab")));
    assert!(!ends(&chars("c"), &chars("bc")));
}

#[test]
fn numbers_in_decimal() {
    for (n, text) in [(0u64, "0"), (7, "7"), (10, "10"), (909, "909"), (u64::MAX, "18446744073709551615")] {
        let mut out = String::from("n=");
        push_decimal(&mut out, n);
        assert_eq!(out, format!("n={}", text));
    }
}
