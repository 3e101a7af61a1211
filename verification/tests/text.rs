use timeseries_fft::text::{char_is_whitespace, scan_lines, Line};

fn line(number: usize, content: &str) -> Line {
    Line { number, content: content.to_string() }
}

/// What the standard library's `lines` and `trim` make of a text.
fn reference_lines(text: &str) -> Vec<Line> {
    let mut lines = Vec::new();
    for (index, raw) in text.lines().enumerate() {
        let content = raw.trim();
        if !content.is_empty() {
            lines.push(line(index + 1, content));
        }
    }
    lines
}

#[test]
fn whitespace_is_what_std_calls_whitespace() {
    for code in 0..=0x10FFFFu32 {
        if let Some(c) = char::from_u32(code) {
            assert_eq!(char_is_whitespace(c), c.is_whitespace(), "U+{:04X}", code);
        }
    }
}

#[test]
fn whitespace_edges() {
    assert!(char_is_whitespace('\t'));
    assert!(char_is_whitespace('\n'));
    assert!(char_is_whitespace('\r'));
    assert!(char_is_whitespace(' '));
    assert!(char_is_whitespace('\u{85}'));
    assert!(char_is_whitespace('\u{A0}'));
    assert!(char_is_whitespace('\u{200A}'));
    assert!(char_is_whitespace('\u{3000}'));
    assert!(!char_is_whitespace('\u{8}'));
    assert!(!char_is_whitespace('\u{E}'));
    assert!(!char_is_whitespace('\u{200B}'));
    assert!(!char_is_whitespace('\u{FEFF}'));
    assert!(!char_is_whitespace('0'));
}

#[test]
fn blank_lines_are_skipped_but_counted() {
    let lines = scan_lines("1.0\n\nabc\n2.0\n3.0");
    assert_eq!(lines, vec![line(1, "1.0"), line(3, "abc"), line(4, "2.0"), line(5, "3.0")]);
}

#[test]
fn empty_text_has_no_lines() {
    assert_eq!(scan_lines(""), Vec::<Line>::new());
}

#[test]
fn whitespace_alone_has_no_lines() {
    assert_eq!(scan_lines("   "), Vec::<Line>::new());
    assert_eq!(scan_lines("\n\n\n"), Vec::<Line>::new());
    assert_eq!(scan_lines(" \t\n\r\n\u{3000}\n  "), Vec::<Line>::new());
}

#[test]
fn lines_are_trimmed_on_both_sides() {
    let lines = scan_lines("  1.5\t\n\t-2\u{A0}\n\u{3000}3e4 ");
    assert_eq!(lines, vec![line(1, "1.5"), line(2, "-2"), line(3, "3e4")]);
}

#[test]
fn whitespace_inside_a_line_stays() {
    assert_eq!(scan_lines(" 1 2  3 \n"), vec![line(1, "1 2  3")]);
}

#[test]
fn carriage_returns_do_not_show() {
    let lines = scan_lines("1\r\n2\r\n\r\n3\r");
    assert_eq!(lines, vec![line(1, "1"), line(2, "2"), line(4, "3")]);
}

#[test]
fn final_line_feed_makes_no_difference() {
    assert_eq!(scan_lines("7\n8\n"), scan_lines("7\n8"));
    assert_eq!(scan_lines("7\n8\n"), vec![line(1, "7"), line(2, "8")]);
}

#[test]
fn single_line_without_line_feed() {
    assert_eq!(scan_lines("42"), vec![line(1, "42")]);
}

#[test]
fn characters_beyond_ascii_are_kept() {
    let lines = scan_lines("\u{2003}π≈3.14\u{2003}\nµ");
    assert_eq!(lines, vec![line(1, "π≈3.14"), line(2, "µ")]);
}

#[test]
fn line_numbers_count_every_line() {
    let mut text = String::new();
    for _ in 0..999 {
        text.push('\n');
    }
    text.push_str("x");
    assert_eq!(scan_lines(&text), vec![line(1000, "x")]);
}

#[test]
fn scan_agrees_with_std_lines_and_trim() {
    let texts = [
        "",
        "\n",
        "\r\n",
        "a",
        "a\n",
        "a\r\n",
        "a\rb\n",
        "\ra\r",
        " a \n b \n\n c",
        "1.0\n\nabc\n2.0\n3.0",
        "\n\n1\n\n2\n\n",
        "\u{85}1\u{85}\n\u{1680}2\u{2028}\n\u{2029}3\u{202F}\n\u{205F}4\u{2000}",
        "0.5\n \t \n-1e-3\r\n+7.\n.5\ninf\nNaN\n",
        "trailing spaces   \n   leading spaces\n\ttabs\t",
    ];
    for text in texts {
        assert_eq!(scan_lines(text), reference_lines(text), "{:?}", text);
    }
}

#[test]
fn a_line_clones_to_an_equal_line() {
    let original = line(3, "2.5");
    assert_eq!(original.clone(), original);
}

#[test]
fn scan_agrees_with_std_on_generated_texts() {
    let alphabet =
        ['1', '.', '-', 'e', 'x', ' ', '\t', '\n', '\n', '\r', '\u{A0}', '\u{3000}', 'é'];
    let mut state: u64 = 0x2545F4914F6CDD1D;
    for round in 0..3000 {
        let mut text = String::new();
        for _ in 0..(round % 40) {
            state = state.wrapping_mul(6364136223846793005).wrapping_add(1442695040888963407);
            text.push(alphabet[((state >> 33) % alphabet.len() as u64) as usize]);
        }
        assert_eq!(scan_lines(&text), reference_lines(&text), "{:?}", text);
    }
}
