use nfs4_acl::decode::skips;
use nfs4_acl::text::{chars_of, find, is_number, string_of};
use nfs4_acl::{Ace, Acl, DecodeErrorKind};

fn chars(text: &str) -> Vec<char> {
    text.chars().collect()
}

/// The number and content of each line that is neither empty nor a comment,
/// as the decoder sees them in a text without colons.
fn seen_lines(text: &str) -> Vec<(usize, String)> {
    let (acl, errors) = Acl::parse_lenient(text);
    assert_eq!(acl.aces.len(), 0);
    errors
        .into_iter()
        .map(|error| {
            assert_eq!(error.kind, DecodeErrorKind::MalformedLine);
            (error.line_number, error.content)
        })
        .collect()
}

/// The same, by the standard library.
fn standard_lines(text: &str) -> Vec<(usize, String)> {
    text.lines()
        .enumerate()
        .filter(|(_, line)| !line.is_empty() && !line.starts_with('#'))
        .map(|(index, line)| (index + 1, String::from(line)))
        .collect()
}

fn numbered(lines: &[(usize, &str)]) -> Vec<(usize, String)> {
    lines.iter().map(|&(number, line)| (number, String::from(line))).collect()
}

#[test]
fn characters_come_out_in_order() {
    assert_eq!(chars_of(""), Vec::<char>::new());
    assert_eq!(chars_of("A:g"), vec!['A', ':', 'g']);
    assert_eq!(chars_of("a\u{e9}\u{1f600}z"), vec!['a', '\u{e9}', '\u{1f600}', 'z']);
}

#[test]
fn a_string_is_made_of_its_characters() {
    assert_eq!(string_of(&[]), "");
    assert_eq!(string_of(&['O', 'W', 'N', 'E', 'R', '@']), "OWNER@");
    assert_eq!(string_of(&chars_of("a\u{e9}\u{1f600}z")), "a\u{e9}\u{1f600}z");
}

#[test]
fn find_gives_the_first_delimiter_of_the_range() {
    let text = chars("ab:cd:ef");
    assert_eq!(find(&text, 0, 8, ':'), 2);
    assert_eq!(find(&text, 2, 8, ':'), 2);
    assert_eq!(find(&text, 3, 8, ':'), 5);
    assert_eq!(find(&text, 6, 8, ':'), 8);
    assert_eq!(find(&text, 0, 2, ':'), 2);
    assert_eq!(find(&text, 3, 5, ':'), 5);
    assert_eq!(find(&text, 4, 4, ':'), 4);
    assert_eq!(find(&text, 0, 8, 'x'), 8);
}

#[test]
fn fields_are_the_pieces_between_the_delimiters() {
    let entry = Ace::from_line("UA:gd: 1234 :rw").unwrap();
    assert_eq!(entry.ace_flags.bits(), 0b11);
    assert_eq!(entry.ace_principals.0, " 1234 ");
    assert_eq!(entry.ace_permissions.bits(), 0b11);
    let entry = Ace::from_line("A:::").unwrap();
    assert_eq!(entry.ace_flags.bits(), 0);
    assert_eq!(entry.ace_principals.0, "");
    assert_eq!(entry.ace_permissions.bits(), 0);
    let entry = Ace::from_line("A::\u{e9}\u{1f600}:").unwrap();
    assert_eq!(entry.ace_principals.0, "\u{e9}\u{1f600}");
}

#[test]
fn four_fields_are_what_three_delimiters_leave() {
    for line in [
        "", ":", "::", ":::", "::::", ":::::", "A", "A:", "A::", "A:::", "A::::", "A:g:1:r",
        "A:g:1", "A:g:1:r:", ":A:g:1:r", "A:g::1:r", "A g 1 r", "A:g:1:r\n", "\u{e9}:::",
    ] {
        let expected = line.split(':').count() == 4;
        let malformed = Ace::from_line(line) == Err(DecodeErrorKind::MalformedLine);
        assert_eq!(!malformed, expected);
    }
}

#[test]
fn lines_end_at_line_feeds() {
    assert_eq!(seen_lines(""), numbered(&[]));
    assert_eq!(seen_lines("one"), numbered(&[(1, "one")]));
    assert_eq!(seen_lines("one\n"), numbered(&[(1, "one")]));
    assert_eq!(seen_lines("one\ntwo"), numbered(&[(1, "one"), (2, "two")]));
    assert_eq!(seen_lines("one\ntwo\n"), numbered(&[(1, "one"), (2, "two")]));
    assert_eq!(seen_lines("\n"), numbered(&[]));
    assert_eq!(seen_lines("one\n\ntwo"), numbered(&[(1, "one"), (3, "two")]));
    assert_eq!(seen_lines("\n\n\none"), numbered(&[(4, "one")]));
    assert_eq!(seen_lines("one\n\n\n"), numbered(&[(1, "one")]));
}

#[test]
fn a_carriage_return_before_a_line_feed_belongs_to_the_line_ending() {
    assert_eq!(seen_lines("one\r\ntwo\r\n"), numbered(&[(1, "one"), (2, "two")]));
    assert_eq!(seen_lines("\r\n"), numbered(&[]));
    assert_eq!(seen_lines("\r\none"), numbered(&[(2, "one")]));
    assert_eq!(seen_lines("one\r"), numbered(&[(1, "one\r")]));
    assert_eq!(seen_lines("one\rtwo\n"), numbered(&[(1, "one\rtwo")]));
    assert_eq!(seen_lines("one\r\r\n"), numbered(&[(1, "one\r")]));
    assert_eq!(seen_lines("\r"), numbered(&[(1, "\r")]));
    assert_eq!(seen_lines("one\n\r"), numbered(&[(1, "one"), (2, "\r")]));
    assert_eq!(seen_lines("\r\r\n"), numbered(&[(1, "\r")]));
}

#[test]
fn lines_agree_with_the_standard_lines() {
    for text in [
        "",
        "\n",
        "\r\n",
        "\r",
        "a",
        "a\n",
        "a\r\n",
        "a\r",
        "a\nb",
        "a\r\nb\r\n",
        "a\n\nb\n\n",
        "\n\na",
        "a\r\r\nb",
        "\r\r",
        "\n\r\n\r",
        "# header\n# more\n",
        "one\n# two\n\nfour\r\n#\nsix",
        " \n\t\n  # late\n",
        "\u{e9}\n\u{1f600}\r\n",
    ] {
        assert_eq!(seen_lines(text), standard_lines(text));
    }
}

#[test]
fn lines_of_every_short_text_agree_with_the_standard_lines() {
    let alphabet = ['a', '#', '\n', '\r'];
    for length in 0..=6u32 {
        for code in 0..4usize.pow(length) {
            let mut text = String::new();
            let mut rest = code;
            for _ in 0..length {
                text.push(alphabet[rest % 4]);
                rest /= 4;
            }
            assert_eq!(seen_lines(&text), standard_lines(&text));
        }
    }
}

#[test]
fn empty_lines_and_comments_are_passed_over() {
    assert!(skips(&chars("")));
    assert!(skips(&chars("#")));
    assert!(skips(&chars("# file: /srv")));
    assert!(skips(&chars("#A::OWNER@:rwx")));
    assert!(!skips(&chars(" ")));
    assert!(!skips(&chars(" #")));
    assert!(!skips(&chars("A::OWNER@:rwx")));
    assert!(!skips(&chars("A#")));
}

#[test]
fn unsigned_decimal_numbers_are_recognised() {
    for text in ["0", "7", "42", "1234", "+1234", "007", "+0", "65535", "65536", "4294967295"] {
        assert!(is_number(text));
    }
    for text in [
        "", "+", "-", "-1", "++1", "+-1", "1+", "12a", "a12", " 12", "12 ", "1 2", "1.0", "1e3",
        "0x1f", "1_000", "OWNER@", "\u{661}\u{662}", "\u{ff11}",
    ] {
        assert!(!is_number(text));
    }
}

#[test]
fn numbers_that_fit_sixteen_bits_are_those_the_standard_parser_takes() {
    for value in 0u32..=65535 {
        let plain = value.to_string();
        assert_eq!(is_number(&plain), plain.parse::<u16>().is_ok());
        let signed = format!("+{}", value);
        assert_eq!(is_number(&signed), signed.parse::<u16>().is_ok());
        let padded = format!("00{}", value);
        assert_eq!(is_number(&padded), padded.parse::<u16>().is_ok());
        let negative = format!("-{}", value);
        assert_eq!(is_number(&negative), negative.parse::<u16>().is_ok());
        let trailing = format!("{}x", value);
        assert_eq!(is_number(&trailing), trailing.parse::<u16>().is_ok());
    }
}
