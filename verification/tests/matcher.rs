use guche::matcher::match_message;

#[test]
fn strict_exact() {
    assert_eq!(match_message("12345", false), Some("12345".into()));
}

#[test]
fn strict_rejects_extra() {
    assert_eq!(match_message("12345a", false), None);
    assert_eq!(match_message(" 12345", false), None);
}

#[test]
fn fuzzy_extracts_prefix() {
    assert_eq!(match_message("66666 test", true), Some("66666".into()));
    assert_eq!(match_message("12345abc", true), Some("12345".into()));
    assert_eq!(match_message("12345 🦐288+", true), Some("12345".into()));
}

#[test]
fn fuzzy_exact_5_digits_only() {
    assert_eq!(match_message("12345", true), Some("12345".into()));
}

#[test]
fn fuzzy_rejects_6_digits() {
    assert_eq!(match_message("123456", true), None);
    assert_eq!(match_message("123456abc", true), None);
}

#[test]
fn fuzzy_rejects_non_digit_start() {
    assert_eq!(match_message("abc12345", true), None);
}

#[test]
fn strict_does_not_trim() {
    assert_eq!(match_message("12345 ", false), None);
    assert_eq!(match_message("1234", false), None);
    assert_eq!(match_message("", false), None);
}

#[test]
fn fuzzy_trims_unicode_white_space() {
    assert_eq!(match_message("\u{3000} 54321 go", true), Some("54321".into()));
    assert_eq!(match_message("\t\n12345\u{a0}", true), Some("12345".into()));
}

#[test]
fn digits_are_ascii_only() {
    // Full-width digits are not room codes.
    assert_eq!(match_message("１２３４５", false), None);
    assert_eq!(match_message("１２３４５", true), None);
}

#[test]
fn fuzzy_short_or_empty() {
    assert_eq!(match_message("1234", true), None);
    assert_eq!(match_message("   ", true), None);
    assert_eq!(match_message("1234a5", true), None);
}

fn sample_texts() -> Vec<String> {
    let pieces = ["", "1", "12345", "123456", "00000", " ", "\t", "\n", "a", "🦐", "\u{3000}", "9", "x1"];
    let mut out = Vec::new();
    for a in pieces.iter() {
        for b in pieces.iter() {
            for c in pieces.iter() {
                out.push(format!("{a}{b}{c}"));
            }
        }
    }
    out
}

#[test]
fn matcher_agrees_with_regular_expressions() {
    let strict = regex_lite::Regex::new(r"^\d{5}$").unwrap();
    let fuzzy = regex_lite::Regex::new(r"^(\d{5})").unwrap();
    for text in sample_texts() {
        let want_strict = strict.is_match(&text).then(|| text.clone());
        assert_eq!(match_message(&text, false), want_strict, "strict {:?}", text);
        let trimmed = text.trim();
        let want_fuzzy = fuzzy.captures(trimmed).and_then(|cap| {
            let m = cap.get(1)?;
            let after = &trimmed[m.end()..];
            if after.starts_with(|c: char| c.is_ascii_digit()) {
                return None;
            }
            Some(m.as_str().to_string())
        });
        assert_eq!(match_message(&text, true), want_fuzzy, "fuzzy {:?}", text);
    }
}
