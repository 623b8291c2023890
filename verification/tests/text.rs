use redis_import::text::{
    chars_of, digit_of, find_in, is_whitespace, parse_short, push_decimal, split_in, string_of,
    tokens_of, trim_end_of,
};

fn chars(text: &str) -> Vec<char> {
    text.chars().collect()
}

fn strings(items: &[&str]) -> Vec<String> {
    items.iter().map(|f| f.to_string()).collect()
}

#[test]
fn white_space_is_what_unicode_says() {
    for code in 0..=0x10FFFFu32 {
        if let Some(c) = char::from_u32(code) {
            assert_eq!(is_whitespace(c), c.is_whitespace(), "U+{:04X}", code);
        }
    }
}

#[test]
fn characters_come_in_order() {
    assert_eq!(chars_of("a;ü\n"), vec!['a', ';', 'ü', '\n']);
    assert_eq!(chars_of(""), Vec::<char>::new());
}

#[test]
fn string_of_a_range() {
    let v = chars("hello world");
    assert_eq!(string_of(&v, 0, 5), "hello");
    assert_eq!(string_of(&v, 6, 11), "world");
    assert_eq!(string_of(&v, 3, 3), "");
    assert_eq!(string_of(&v, 0, 11), "hello world");
}

#[test]
fn trimming_stops_at_the_last_other_character() {
    let v = chars("  ab \t\r\n");
    assert_eq!(trim_end_of(&v, 0, v.len()), 4);
    assert_eq!(trim_end_of(&v, 0, 4), 4);
    assert_eq!(trim_end_of(&v, 0, 2), 0);
    assert_eq!(trim_end_of(&v, 4, v.len()), 4);
    assert_eq!(trim_end_of(&v, 3, 3), 3);
}

#[test]
fn first_occurrence_is_found() {
    let v = chars("a;b;c");
    assert_eq!(find_in(&v, 0, 5, ';'), 1);
    assert_eq!(find_in(&v, 2, 5, ';'), 3);
    assert_eq!(find_in(&v, 4, 5, ';'), 5);
    assert_eq!(find_in(&v, 0, 1, ';'), 1);
    assert_eq!(find_in(&v, 1, 5, ';'), 1);
    assert_eq!(find_in(&v, 2, 2, ';'), 2);
}

#[test]
fn pieces_between_delimiters() {
    let v = chars("a;bc;;d;");
    assert_eq!(split_in(&v, 0, v.len(), ';'), strings(&["a", "bc", "", "d", ""]));
    assert_eq!(split_in(&v, 0, 1, ';'), strings(&["a"]));
    assert_eq!(split_in(&v, 0, 0, ';'), strings(&[""]));
    assert_eq!(split_in(&v, 1, 2, ';'), strings(&["", ""]));
    assert_eq!(split_in(&v, 2, 7, ','), strings(&["bc;;d"]));
}

#[test]
fn pieces_join_to_the_text() {
    for text in ["", ";", "a", "a;b", ";;a;;", "x;y;z;"] {
        let v = chars(text);
        let pieces = split_in(&v, 0, v.len(), ';');
        assert_eq!(pieces.join(";"), text);
        assert_eq!(pieces.len(), 1 + text.matches(';').count());
    }
}

#[test]
fn words_are_runs_without_white_space() {
    assert_eq!(
        tokens_of(&chars("MOVED: 3999 127.0.0.1:6381")),
        strings(&["MOVED:", "3999", "127.0.0.1:6381"])
    );
    assert_eq!(tokens_of(&chars("  a \t b\u{a0}c\n")), strings(&["a", "b", "c"]));
    assert_eq!(tokens_of(&chars("")), strings(&[]));
    assert_eq!(tokens_of(&chars(" \n ")), strings(&[]));
    assert_eq!(tokens_of(&chars("one")), strings(&["one"]));
}

#[test]
fn words_agree_with_the_standard_library() {
    for text in ["", " ", "a", " a", "a ", "a  b", "\ta\nb\r\nc d  ", "x\u{2003}y\u{85}z"] {
        let expected: Vec<String> = text.split_whitespace().map(|w| w.to_string()).collect();
        assert_eq!(tokens_of(&chars(text)), expected);
    }
}

#[test]
fn digits_are_characters() {
    let expected = ['0', '1', '2', '3', '4', '5', '6', '7', '8', '9'];
    for d in 0..10u16 {
        assert_eq!(digit_of(d), expected[d as usize]);
    }
}

#[test]
fn decimal_is_appended() {
    for n in [0u16, 7, 10, 99, 100, 6379, 65535] {
        let mut s = String::from("port ");
        push_decimal(&mut s, n);
        assert_eq!(s, format!("port {}", n));
    }
}

#[test]
fn every_port_is_written_as_the_standard_library_writes_it() {
    for n in 0..=u16::MAX {
        let mut s = String::new();
        push_decimal(&mut s, n);
        assert_eq!(s, n.to_string());
    }
}

#[test]
fn numbers_are_read() {
    assert_eq!(parse_short("0"), Some(0));
    assert_eq!(parse_short("6379"), Some(6379));
    assert_eq!(parse_short("65535"), Some(65535));
    assert_eq!(parse_short("+80"), Some(80));
    assert_eq!(parse_short("0000000000000000000080"), Some(80));
}

#[test]
fn what_is_no_number_is_not_read() {
    for text in ["", "+", "-1", "65536", "99999999999999999999", "80 ", " 80", "8o", "0x50", "++1", "1+", "٣"] {
        assert_eq!(parse_short(text), None, "{:?}", text);
    }
}

#[test]
fn numbers_are_read_as_the_standard_library_reads_them() {
    for text in ["", "+", "-", "+0", "-0", "007", "65535", "65536", "+65535", "+65536", "1e3", "1_0", "१२"] {
        assert_eq!(parse_short(text), text.parse::<u16>().ok(), "{:?}", text);
    }
    for n in 0..=70000u32 {
        let text = n.to_string();
        assert_eq!(parse_short(&text), text.parse::<u16>().ok());
    }
}

#[test]
fn every_number_written_is_read_back() {
    for n in 0..=u16::MAX {
        let mut s = String::new();
        push_decimal(&mut s, n);
        assert_eq!(parse_short(&s), Some(n));
    }
}
