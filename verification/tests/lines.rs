use mission_control::lines::{chars_of, content_lines_of, is_whitespace, lines_of, strip_range, Strip};

fn texts(v: Vec<Vec<char>>) -> Vec<String> {
    v.into_iter().map(|l| l.into_iter().collect()).collect()
}

#[test]
fn lines_like_str_lines() {
    for s in ["", "a", "a\n", "a\r\nb", "foo\r\nbar\n\nbaz\r", "\n\n", "x\ny\r\n"] {
        let expected: Vec<String> = s.lines().map(|l| l.to_string()).collect();
        assert_eq!(texts(lines_of(s)), expected, "input {:?}", s);
    }
}

#[test]
fn content_lines_skip_blank_ones() {
    assert_eq!(content_lines_of("{\"a\":1}\n  \n\t\n{\"b\":2}\r\n"), vec!["{\"a\":1}", "{\"b\":2}"]);
    assert!(content_lines_of(" \n\n").is_empty());
}

#[test]
fn trimming_like_trim_and_trim_matches() {
    for s in ["  a b  ", "\u{3000}x\u{85}", "\"'q'\"", "", "   "] {
        let v = chars_of(s);
        let (a, b) = strip_range(&v, 0, v.len(), Strip::Whitespace);
        let got: String = v[a..b].iter().collect();
        assert_eq!(got, s.trim());
        let (c, d) = strip_range(&v, 0, v.len(), Strip::Char('"'));
        let got2: String = v[c..d].iter().collect();
        assert_eq!(got2, s.trim_matches('"'));
    }
    for c in ['\t', ' ', '\u{a0}', '\u{2028}', '\u{200b}', 'x'] {
        assert_eq!(is_whitespace(c), c.is_whitespace());
    }
}

#[test]
fn inserting_a_blank_line_leaves_the_content_lines_alone() {
    let a = "{\"a\":1}\n";
    let b = "{\"b\":2}\n";
    let plain = content_lines_of(&format!("{a}{b}"));
    assert_eq!(content_lines_of(&format!("{a} \t\r\n{b}")), plain);
    assert_eq!(content_lines_of(&format!("\n{a}{b}")), plain);
    assert_eq!(content_lines_of(&format!("{a}{b}   \n")), plain);
}
