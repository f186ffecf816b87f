use puckepy::text::{
    has_prefix, has_suffix, is_whitespace, parse_u16, split_fields, split_lines, starts_with,
    trim, Span,
};

fn whole(line: &[u8]) -> Span {
    Span { start: 0, end: line.len() }
}

fn text<'a>(line: &'a str, span: Span) -> &'a str {
    &line[span.start..span.end]
}

#[test]
fn whitespace_bytes() {
    for b in [b' ', b'\t', b'\n', 0x0b, 0x0c, b'\r'] {
        assert!(is_whitespace(b));
    }
    for b in [0u8, 8, 14, 31, 33, b'0', b'A', b'_', 0x7f, 0x85, 0xa0, 0xff] {
        assert!(!is_whitespace(b));
    }
}

#[test]
fn whitespace_as_for_ascii_text() {
    for b in 0u8..128 {
        assert_eq!(is_whitespace(b), char::from(b).is_whitespace());
    }
}

#[test]
fn trim_strips_both_ends() {
    let line = "  C1'  ";
    let t = trim(line.as_bytes(), whole(line.as_bytes()));
    assert_eq!(t, Span { start: 2, end: 5 });
    assert_eq!(text(line, t), "C1'");
}

#[test]
fn trim_keeps_inner_blanks() {
    let line = "\t a b \r\n";
    let t = trim(line.as_bytes(), whole(line.as_bytes()));
    assert_eq!(text(line, t), "a b");
}

#[test]
fn trim_of_blanks_is_empty_at_the_end() {
    let line = "ab    cd";
    let t = trim(line.as_bytes(), Span { start: 2, end: 6 });
    assert_eq!(t, Span { start: 6, end: 6 });
    let t = trim(line.as_bytes(), Span { start: 3, end: 3 });
    assert_eq!(t, Span { start: 3, end: 3 });
}

#[test]
fn trim_stays_inside_the_field() {
    let line = "xx  41  yy";
    let t = trim(line.as_bytes(), Span { start: 2, end: 8 });
    assert_eq!(text(line, t), "41");
    let t = trim(line.as_bytes(), Span { start: 1, end: 9 });
    assert_eq!(text(line, t), "x  41  y");
}

#[test]
fn trim_as_std_on_ascii() {
    for line in ["", " ", "a", " a", "a ", "  24.802 ", "\t\tx\ty\n", "\x0b\x0cz\x0b", "no blanks"] {
        let t = trim(line.as_bytes(), whole(line.as_bytes()));
        assert_eq!(text(line, t), line.trim());
    }
}

#[test]
fn fields_of_a_coordinate_line() {
    let line = "  H   4.01196826057662      2.03352821967286      2.01847309650732";
    let fields = split_fields(line.as_bytes(), whole(line.as_bytes()));
    let words: Vec<&str> = fields.iter().map(|f| text(line, *f)).collect();
    assert_eq!(words, vec!["H", "4.01196826057662", "2.03352821967286", "2.01847309650732"]);
    assert_eq!(fields[0], Span { start: 2, end: 3 });
}

#[test]
fn fields_of_blank_lines() {
    assert_eq!(split_fields(b"", whole(b"")), Vec::new());
    assert_eq!(split_fields(b"   \t \r", whole(b"   \t \r")), Vec::new());
}

#[test]
fn fields_touching_the_ends() {
    assert_eq!(split_fields(b"a", whole(b"a")), vec![Span { start: 0, end: 1 }]);
    assert_eq!(
        split_fields(b"ab c", whole(b"ab c")),
        vec![Span { start: 0, end: 2 }, Span { start: 3, end: 4 }]
    );
    assert_eq!(split_fields(b" ab", whole(b" ab")), vec![Span { start: 1, end: 3 }]);
    assert_eq!(split_fields(b"ab ", whole(b"ab ")), vec![Span { start: 0, end: 2 }]);
}

#[test]
fn fields_as_std_on_ascii() {
    for line in [
        "",
        "31",
        "Coordinates from ORCA-job Conformation_X",
        "  O   3.76770440038636      1.71999235396699      1.14581624607411",
        "a\tb\x0bc\x0cd\re\nf",
        "   lead and trail   ",
    ] {
        let fields = split_fields(line.as_bytes(), whole(line.as_bytes()));
        let words: Vec<&str> = fields.iter().map(|f| text(line, *f)).collect();
        let expected: Vec<&str> = line.split_whitespace().collect();
        assert_eq!(words, expected);
    }
}

#[test]
fn prefix_and_suffix() {
    assert!(has_prefix(b"ATOM      1", b"ATOM"));
    assert!(has_prefix(b"ATOM", b"ATOM"));
    assert!(has_prefix(b"ATOM", b""));
    assert!(!has_prefix(b"ATO", b"ATOM"));
    assert!(!has_prefix(b" ATOM", b"ATOM"));
    assert!(!has_prefix(b"ATOm", b"ATOM"));
    assert!(has_suffix(b"ring.pdb", b".pdb"));
    assert!(has_suffix(b".pdb", b".pdb"));
    assert!(has_suffix(b"ring", b""));
    assert!(!has_suffix(b"ring.pdb ", b".pdb"));
    assert!(!has_suffix(b"pdb", b".pdb"));
    assert!(!has_suffix(b"ring.xyz", b".pdb"));
}

fn parse(s: &str) -> Option<u16> {
    parse_u16(s.as_bytes(), whole(s.as_bytes()))
}

#[test]
fn parse_numbers() {
    assert_eq!(parse("0"), Some(0));
    assert_eq!(parse("41"), Some(41));
    assert_eq!(parse("9999"), Some(9999));
    assert_eq!(parse("00012"), Some(12));
    assert_eq!(parse("+7"), Some(7));
    assert_eq!(parse("65535"), Some(65535));
    assert_eq!(parse("0000065535"), Some(65535));
}

#[test]
fn parse_refuses_what_is_no_number() {
    assert_eq!(parse(""), None);
    assert_eq!(parse("+"), None);
    assert_eq!(parse("-"), None);
    assert_eq!(parse("-1"), None);
    assert_eq!(parse("++1"), None);
    assert_eq!(parse("1+"), None);
    assert_eq!(parse(" 1"), None);
    assert_eq!(parse("1 "), None);
    assert_eq!(parse("12a"), None);
    assert_eq!(parse("4.0"), None);
    assert_eq!(parse("A"), None);
}

#[test]
fn parse_refuses_what_is_too_large() {
    assert_eq!(parse("65536"), None);
    assert_eq!(parse("70000"), None);
    assert_eq!(parse("99999999999999999999999999"), None);
    assert_eq!(parse("+65536"), None);
}

#[test]
fn parse_as_std() {
    for s in [
        "", "+", "-", "0", "+0", "-0", "7", "007", "41", "4 1", "65535", "65536", "655350",
        "+65535", "1e3", "0x10", "१२", "12\n",
    ] {
        assert_eq!(parse(s), s.parse::<u16>().ok(), "{:?}", s);
    }
}

#[test]
fn parse_a_field_of_a_line() {
    let line = "ATOM      1  O6'  MA    41      24.802";
    let field = trim(line.as_bytes(), Span { start: 22, end: 26 });
    assert_eq!(parse_u16(line.as_bytes(), field), Some(41));
    assert_eq!(parse_u16(line.as_bytes(), Span { start: 22, end: 26 }), None);
    assert_eq!(parse_u16(line.as_bytes(), Span { start: 24, end: 25 }), Some(4));
}

#[test]
fn fields_of_a_part_of_a_text() {
    let text = b"one two\nthree four five\nsix";
    assert_eq!(
        split_fields(text, Span { start: 8, end: 23 }),
        vec![
            Span { start: 8, end: 13 },
            Span { start: 14, end: 18 },
            Span { start: 19, end: 23 }
        ]
    );
    // a part may cut a word
    assert_eq!(split_fields(text, Span { start: 1, end: 6 }), vec![
        Span { start: 1, end: 3 },
        Span { start: 4, end: 6 }
    ]);
    assert_eq!(split_fields(text, Span { start: 3, end: 4 }), Vec::new());
    assert_eq!(split_fields(text, Span { start: 5, end: 5 }), Vec::new());
}

#[test]
fn prefix_of_a_part_of_a_text() {
    let text = b"REMARK\nATOM  1\nEND";
    assert!(starts_with(text, Span { start: 7, end: 14 }, b"ATOM"));
    assert!(!starts_with(text, Span { start: 7, end: 10 }, b"ATOM"));
    assert!(!starts_with(text, Span { start: 0, end: 6 }, b"ATOM"));
    assert!(starts_with(text, Span { start: 15, end: 18 }, b"END"));
    assert!(starts_with(text, Span { start: 18, end: 18 }, b""));
}

fn lines(text: &str) -> Vec<&str> {
    split_lines(text.as_bytes()).iter().map(|l| &text[l.start..l.end]).collect()
}

#[test]
fn lines_end_at_line_feeds() {
    assert_eq!(lines("one\ntwo\nthree"), vec!["one", "two", "three"]);
    assert_eq!(lines("one\ntwo\n"), vec!["one", "two"]);
    assert_eq!(
        split_lines(b"ab\ncd"),
        vec![Span { start: 0, end: 2 }, Span { start: 3, end: 5 }]
    );
}

#[test]
fn lines_of_an_empty_text() {
    assert_eq!(split_lines(b""), Vec::new());
}

#[test]
fn lines_may_be_empty() {
    assert_eq!(lines("\n"), vec![""]);
    assert_eq!(lines("\n\n"), vec!["", ""]);
    assert_eq!(lines("a\n\nb"), vec!["a", "", "b"]);
    assert_eq!(lines("\na"), vec!["", "a"]);
}

#[test]
fn lines_lose_the_carriage_return_before_a_line_feed() {
    assert_eq!(lines("one\r\ntwo\r\n"), vec!["one", "two"]);
    assert_eq!(lines("\r\n"), vec![""]);
    assert_eq!(lines("a\r\r\nb"), vec!["a\r", "b"]);
    assert_eq!(lines("a\rb\nc"), vec!["a\rb", "c"]);
}

#[test]
fn lines_keep_a_carriage_return_at_the_end_of_the_text() {
    assert_eq!(lines("one\r\ntwo\r"), vec!["one", "two\r"]);
    assert_eq!(lines("\r"), vec!["\r"]);
}

#[test]
fn lines_as_std() {
    for text in [
        "",
        "\n",
        "\r\n",
        "a",
        "a\n",
        "a\r\n",
        "a\nb",
        "a\r\nb\r\n",
        "a\n\r\n\nb\n",
        "31\nCoordinates\n  H   4.0  2.0  2.0\n  O   3.7  1.7  1.1\n",
        "\r\r\n\r",
        "x\ny\r",
    ] {
        let expected: Vec<&str> = text.lines().collect();
        assert_eq!(lines(text), expected, "{:?}", text);
    }
}

// Texts of the characters that matter here, drawn in a fixed order.
fn sample_texts() -> Vec<String> {
    let alphabet = [' ', ' ', 'a', 'b', '1', '+', '\n', '\n', '\r', '\t', '\x0b', '\x0c', '.', '-'];
    let mut state: u32 = 12345;
    let mut texts = Vec::new();
    for round in 0..400 {
        let len = round % 23;
        let mut text = String::new();
        for _ in 0..len {
            state = state.wrapping_mul(1103515245).wrapping_add(12345);
            text.push(alphabet[(state >> 16) as usize % alphabet.len()]);
        }
        texts.push(text);
    }
    texts
}

#[test]
fn lines_as_std_on_many_texts() {
    for text in sample_texts() {
        let expected: Vec<&str> = text.lines().collect();
        assert_eq!(lines(&text), expected, "{:?}", text);
    }
}

#[test]
fn fields_as_std_on_many_texts() {
    for text in sample_texts() {
        let fields = split_fields(text.as_bytes(), whole(text.as_bytes()));
        let words: Vec<&str> = fields.iter().map(|f| &text[f.start..f.end]).collect();
        let expected: Vec<&str> = text.split_whitespace().collect();
        assert_eq!(words, expected, "{:?}", text);
    }
}

#[test]
fn trim_as_std_on_many_texts() {
    for text in sample_texts() {
        let t = trim(text.as_bytes(), whole(text.as_bytes()));
        assert_eq!(&text[t.start..t.end], text.trim(), "{:?}", text);
    }
}

#[test]
fn parse_as_std_on_many_texts() {
    for text in sample_texts() {
        for word in text.split_whitespace() {
            assert_eq!(parse(word), word.parse::<u16>().ok(), "{:?}", word);
        }
    }
    for n in [0u32, 9, 10, 99, 100, 65534, 65535, 65536, 65545, 99999, 655350, 4294967295] {
        let word = n.to_string();
        assert_eq!(parse(&word), word.parse::<u16>().ok());
        let word = format!("+{}", n);
        assert_eq!(parse(&word), word.parse::<u16>().ok());
        let word = format!("000{}", n);
        assert_eq!(parse(&word), word.parse::<u16>().ok());
    }
}
