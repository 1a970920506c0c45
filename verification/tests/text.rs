use rcpp::text::{
    chars_of, is_space_char, join_chars, replace_chars, split_char, split_lines,
    trim, trim_end_matches, trim_start_matches,
};

fn s(v: &[char]) -> String {
    v.iter().collect()
}

#[test]
fn whitespace_agrees_with_std_for_every_char() {
    for u in 0u32..=0x10FFFF {
        if let Some(c) = char::from_u32(u) {
            assert_eq!(is_space_char(c), c.is_whitespace(), "U+{:04X}", u);
        }
    }
}

#[test]
fn trim_matches_std() {
    for t in ["  a b  ", "\u{3000}x\u{a0}", "", "   ", "\tline\r\n", "no"] {
        assert_eq!(s(&trim(&chars_of(t))), t.trim());
    }
}

#[test]
fn lines_match_std() {
    for t in ["a\nb", "a\r\nb\r\n", "", "\n", "a\n\nb\n", "x\ry", "one"] {
        let got: Vec<String> = split_lines(&chars_of(t)).iter().map(|l| s(l)).collect();
        let want: Vec<String> = t.lines().map(|l| l.to_string()).collect();
        assert_eq!(got, want, "{:?}", t);
    }
}

#[test]
fn replace_matches_std() {
    for (t, p, r) in [("aaaa", "aa", "b"), ("x::y::z", "::", "/"), ("abc", "z", "q"), ("a\\b", "\\", "/")] {
        assert_eq!(s(&replace_chars(&chars_of(t), &chars_of(p), &chars_of(r))), t.replace(p, r));
    }
}

#[test]
fn trim_matches_repeated_prefix_and_suffix() {
    assert_eq!(s(&trim_start_matches(&chars_of("#[#[x]]"), &chars_of("#["))), "x]]");
    assert_eq!(s(&trim_end_matches(&chars_of("x.rcx.rcx"), &chars_of(".rcx"))), "x");
    assert_eq!(s(&trim_end_matches(&chars_of("x"), &chars_of(""))), "x");
}

#[test]
fn split_and_join() {
    let parts = split_char(&chars_of("a,,b,"), ',');
    let got: Vec<String> = parts.iter().map(|p| s(p)).collect();
    assert_eq!(got, vec!["a", "", "b", ""]);
    assert_eq!(s(&join_chars(&parts, &chars_of("+"))), "a++b+");
}
