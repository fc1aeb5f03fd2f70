use grepolis_diff::names::decode_name;
use grepolis_diff::names::join_pairs;
use grepolis_diff::text::chars_of;
use grepolis_diff::text::lines;
use grepolis_diff::text::parse_number;
use grepolis_diff::text::push_decimal;
use grepolis_diff::text::split;
use grepolis_diff::text::string_of;

fn chars(text: &str) -> Vec<char> {
    text.chars().collect()
}

fn as_strings(rows: Vec<Vec<char>>) -> Vec<String> {
    rows.iter().map(|row| row.iter().collect::<String>()).collect()
}

#[test]
fn chars_of_copies_every_character() {
    assert_eq!(chars_of(""), Vec::<char>::new());
    assert_eq!(chars_of("a,b"), vec!['a', ',', 'b']);
    assert_eq!(chars_of("ä€😀"), vec!['ä', '€', '😀']);
}

#[test]
fn string_of_writes_every_character() {
    assert_eq!(string_of(&Vec::new()), "");
    assert_eq!(string_of(&vec!['Z', 'e', 'u', 's']), "Zeus");
    assert_eq!(string_of(&vec!['ä', '€', '😀']), "ä€😀");
}

#[test]
fn split_keeps_empty_pieces() {
    assert_eq!(as_strings(split(&chars(""), ',')), vec![""]);
    assert_eq!(as_strings(split(&chars("a"), ',')), vec!["a"]);
    assert_eq!(as_strings(split(&chars("a,b"), ',')), vec!["a", "b"]);
    assert_eq!(as_strings(split(&chars(",a,,b,"), ',')), vec!["", "a", "", "b", ""]);
    assert_eq!(as_strings(split(&chars(",,"), ',')), vec!["", "", ""]);
}

#[test]
fn split_agrees_with_the_standard_library() {
    for text in ["", ",", "1,2,3", "a,,b", ",x", "x,", "no separator", "ü,ö,ä"] {
        let expected: Vec<String> = text.split(',').map(String::from).collect();
        assert_eq!(as_strings(split(&chars(text), ',')), expected, "splitting {:?}", text);
    }
}

#[test]
fn lines_drops_the_terminators() {
    assert_eq!(as_strings(lines("")), Vec::<String>::new());
    assert_eq!(as_strings(lines("one")), vec!["one"]);
    assert_eq!(as_strings(lines("one\n")), vec!["one"]);
    assert_eq!(as_strings(lines("one\ntwo")), vec!["one", "two"]);
    assert_eq!(as_strings(lines("one\r\ntwo\r\n")), vec!["one", "two"]);
    assert_eq!(as_strings(lines("one\n\ntwo\n")), vec!["one", "", "two"]);
    assert_eq!(as_strings(lines("\n")), vec![""]);
}

#[test]
fn lines_keeps_a_carriage_return_that_ends_no_line() {
    assert_eq!(as_strings(lines("one\rtwo\n")), vec!["one\rtwo"]);
    assert_eq!(as_strings(lines("one\r")), vec!["one\r"]);
    assert_eq!(as_strings(lines("one\r\r\n")), vec!["one\r"]);
}

#[test]
fn lines_agrees_with_the_standard_library() {
    for text in [
        "",
        "\n",
        "\r\n",
        "\r",
        "a",
        "a\n",
        "a\r\n",
        "a\r",
        "a\nb",
        "a\r\nb\r",
        "\n\n",
        "a\n\r\nb\n",
        "1,2,3\n4,5,6\n",
        "x\r\r\ny",
    ] {
        let expected: Vec<String> = text.lines().map(String::from).collect();
        assert_eq!(as_strings(lines(text)), expected, "lines of {:?}", text);
    }
}

#[test]
fn parse_number_reads_decimal_digits() {
    assert_eq!(parse_number(&chars("0"), u32::MAX), Some(0));
    assert_eq!(parse_number(&chars("7"), u32::MAX), Some(7));
    assert_eq!(parse_number(&chars("4294967295"), u32::MAX), Some(4294967295));
    assert_eq!(parse_number(&chars("255"), 255), Some(255));
    assert_eq!(parse_number(&chars("65535"), 65535), Some(65535));
}

#[test]
fn parse_number_accepts_a_plus_sign_and_leading_zeros() {
    assert_eq!(parse_number(&chars("+12"), u32::MAX), Some(12));
    assert_eq!(parse_number(&chars("0012"), u32::MAX), Some(12));
    assert_eq!(parse_number(&chars("000000000000000000000000000001"), 255), Some(1));
    assert_eq!(parse_number(&chars("+0"), 255), Some(0));
}

#[test]
fn parse_number_rejects_what_is_no_number() {
    assert_eq!(parse_number(&chars(""), u32::MAX), None);
    assert_eq!(parse_number(&chars("+"), u32::MAX), None);
    assert_eq!(parse_number(&chars("-1"), u32::MAX), None);
    assert_eq!(parse_number(&chars("++1"), u32::MAX), None);
    assert_eq!(parse_number(&chars("1+"), u32::MAX), None);
    assert_eq!(parse_number(&chars("12a"), u32::MAX), None);
    assert_eq!(parse_number(&chars(" 12"), u32::MAX), None);
    assert_eq!(parse_number(&chars("1.5"), u32::MAX), None);
    assert_eq!(parse_number(&chars("١٢"), u32::MAX), None);
}

#[test]
fn parse_number_rejects_what_is_too_large() {
    assert_eq!(parse_number(&chars("4294967296"), u32::MAX), None);
    assert_eq!(parse_number(&chars("99999999999999999999999999"), u32::MAX), None);
    assert_eq!(parse_number(&chars("256"), 255), None);
    assert_eq!(parse_number(&chars("65536"), 65535), None);
}

#[test]
fn parse_number_agrees_with_the_standard_library() {
    for text in ["", "+", "-", "0", "+0", "-0", "00", "42", "+42", "4294967295", "4294967296", "1_000", "0x10", "12 "] {
        assert_eq!(parse_number(&chars(text), u32::MAX), text.parse::<u32>().ok(), "u32 of {:?}", text);
        assert_eq!(
            parse_number(&chars(text), 65535),
            text.parse::<u16>().ok().map(u32::from),
            "u16 of {:?}",
            text
        );
        assert_eq!(
            parse_number(&chars(text), 255),
            text.parse::<u8>().ok().map(u32::from),
            "u8 of {:?}",
            text
        );
    }
}

#[test]
fn push_decimal_writes_base_ten() {
    for (n, expected) in [(0usize, "0"), (7, "7"), (10, "10"), (200, "200"), (1234567890, "1234567890")] {
        let mut text = String::from("n=");
        push_decimal(&mut text, n);
        assert_eq!(text, format!("n={}", expected));
    }
    let mut text = String::new();
    push_decimal(&mut text, usize::MAX);
    assert_eq!(text, format!("{}", usize::MAX));
}

#[test]
fn written_numbers_read_back() {
    for n in [0u32, 1, 9, 10, 99, 100, 65535, 4294967295] {
        let mut text = String::new();
        push_decimal(&mut text, n as usize);
        assert_eq!(parse_number(&chars(&text), u32::MAX), Some(n));
    }
}

#[test]
fn decode_name_decodes_percent_and_plus() {
    assert_eq!(decode_name("Athen"), "Athen");
    assert_eq!(decode_name("New+Town"), "New Town");
    assert_eq!(decode_name("K%C3%B6ln"), "Köln");
    assert_eq!(decode_name("100%25"), "100%");
    assert_eq!(decode_name(""), "");
}

#[test]
fn decode_name_drops_the_form_separators() {
    assert_eq!(decode_name("a=b"), "ab");
    assert_eq!(decode_name("a&b"), "ab");
    assert_eq!(decode_name("k1=v1&k2=v2"), "k1v1k2v2");
    assert_eq!(decode_name("a=b=c"), "ab=c");
    assert_eq!(decode_name("%26%3D"), "&=");
}

#[test]
fn decode_name_agrees_with_the_form_parser() {
    for text in ["Zeus%27+Town", "x=y&z", "%E2%82%AC", "%zz", "a%2", "+%2B+"] {
        let expected: String = form_urlencoded::parse(text.as_bytes())
            .map(|(key, value)| [key, value].concat())
            .collect();
        assert_eq!(decode_name(text), expected, "decoding {:?}", text);
    }
}

#[test]
fn join_pairs_writes_names_and_values_in_order() {
    assert_eq!(join_pairs(&Vec::new()), "");
    let pairs = vec![
        (String::from("a"), String::from("1")),
        (String::from(""), String::from("x y")),
        (String::from("b"), String::from("")),
    ];
    assert_eq!(join_pairs(&pairs), "a1x yb");
}
