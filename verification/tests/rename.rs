use guche::rename::compute_new_name;

#[test]
fn start_no_old_code() {
    let (name, _) = compute_new_name("娱乐群", "66666", false);
    assert_eq!(name, "66666 娱乐群");
}

#[test]
fn start_replace_old_code() {
    let (name, _) = compute_new_name("12345 娱乐群", "66666", false);
    assert_eq!(name, "66666 娱乐群");
}

#[test]
fn end_no_old_code() {
    let (name, _) = compute_new_name("娱乐群", "66666", true);
    assert_eq!(name, "娱乐群 66666");
}

#[test]
fn end_replace_old_code() {
    let (name, _) = compute_new_name("娱乐群 12345", "66666", true);
    assert_eq!(name, "娱乐群 66666");
}

#[test]
fn empty_base() {
    let (name, _) = compute_new_name("12345", "66666", false);
    assert_eq!(name, "66666");
}

#[test]
fn start_keeps_trailing_number() {
    let (name, _) = compute_new_name("推车abc 126860", "66666", false);
    assert_eq!(name, "66666 推车abc 126860");
}

#[test]
fn start_trims_overflow() {
    let base = "车".repeat(80);
    let (name, trimmed) = compute_new_name(&base, "66666", false);
    assert_eq!(name.chars().count(), 60);
    assert!(trimmed && name.starts_with("66666 "));
}

#[test]
fn end_trims_overflow() {
    let base = "车".repeat(80);
    let (name, trimmed) = compute_new_name(&base, "66666", true);
    assert_eq!(name.chars().count(), 60);
    assert!(trimmed && name.ends_with(" 66666"));
}

#[test]
fn no_trim_when_within_limit() {
    let (name, trimmed) = compute_new_name("短群名", "66666", false);
    assert_eq!(name, "66666 短群名");
    assert!(!trimmed);
}

#[test]
fn end_keeps_name_with_inner_number() {
    // The spec's example: a trailing word that is not a code stays.
    let (name, _) = compute_new_name("娱乐群 12345 版本2", "66666", true);
    assert_eq!(name, "娱乐群 12345 版本2 66666");
}

#[test]
fn end_code_only_name() {
    let (name, trimmed) = compute_new_name("12345", "66666", true);
    assert_eq!(name, "66666");
    assert!(!trimmed);
}

#[test]
fn start_trim_keeps_head_of_name() {
    let base: String = (0..70).map(|i| char::from(b'a' + (i % 26) as u8)).collect();
    let (name, trimmed) = compute_new_name(&base, "66666", false);
    assert!(trimmed);
    assert_eq!(name, format!("66666 {}", &base[..54]));
}

#[test]
fn end_trim_keeps_tail_of_name() {
    let base: String = (0..70).map(|i| char::from(b'a' + (i % 26) as u8)).collect();
    let (name, trimmed) = compute_new_name(&base, "66666", true);
    assert!(trimmed);
    assert_eq!(name, format!("{} 66666", &base[16..]));
}

#[test]
fn exactly_at_limit_is_not_trimmed() {
    let base = "x".repeat(54);
    let (name, trimmed) = compute_new_name(&base, "66666", false);
    assert_eq!(name.chars().count(), 60);
    assert!(!trimmed);
}

#[test]
fn second_code_replaces_first() {
    for end in [false, true] {
        let (first, _) = compute_new_name("娱乐群", "11111", end);
        let (second, _) = compute_new_name(&first, "22222", end);
        let (direct, _) = compute_new_name("娱乐群", "22222", end);
        assert_eq!(second, direct);
    }
    let long = "车".repeat(80);
    let (first, _) = compute_new_name(&long, "11111", false);
    let (second, cut_again) = compute_new_name(&first, "22222", false);
    let (direct, _) = compute_new_name(&long, "22222", false);
    assert_eq!(second, direct);
    // The second rename never has to cut.
    assert!(!cut_again);
    // Without a cut in the first rename, the flag agrees as well.
    for end in [false, true] {
        let x = "群 名 54";
        let (first, _) = compute_new_name(x, "11111", end);
        assert_eq!(compute_new_name(&first, "22222", end), compute_new_name(x, "22222", end));
    }
}

#[test]
fn head_code_with_only_spaces_after() {
    // Five digits then spaces: the last space is the kept part.
    let (name, _) = compute_new_name("12345  ", "66666", false);
    assert_eq!(name, "66666  ");
    let (name, _) = compute_new_name("12345 ", "66666", false);
    assert_eq!(name, "66666 12345 ");
}

fn reference_rename(old_name: &str, new_code: &str, end: bool) -> (String, bool) {
    let head = regex_lite::Regex::new(r"^(\d{5})\s+(.+)$").unwrap();
    let tail = regex_lite::Regex::new(r"^(.*\s)?(\d{5})$").unwrap();
    let base_name = if !end {
        if let Some(caps) = head.captures(old_name) {
            caps.get(2).map(|m| m.as_str().to_string()).unwrap_or_default()
        } else if old_name.len() == 5 && old_name.bytes().all(|b| b.is_ascii_digit()) {
            String::new()
        } else {
            old_name.to_string()
        }
    } else if let Some(caps) = tail.captures(old_name) {
        caps.get(1).map(|m| m.as_str().trim_end().to_string()).unwrap_or_default()
    } else {
        old_name.to_string()
    };
    let join = |base: &str| {
        if base.is_empty() {
            new_code.to_string()
        } else if !end {
            format!("{new_code} {base}")
        } else {
            format!("{base} {new_code}")
        }
    };
    let new_name = join(&base_name);
    if new_name.chars().count() <= 60 {
        return (new_name, false);
    }
    let overflow = new_name.chars().count() - 60;
    let base_len = base_name.chars().count();
    let trimmed_base: String = if base_len > overflow {
        if !end {
            base_name.chars().take(base_len - overflow).collect()
        } else {
            base_name.chars().skip(overflow).collect()
        }
    } else {
        String::new()
    };
    (join(&trimmed_base), true)
}

#[test]
fn rename_agrees_with_regular_expressions() {
    let pieces = ["", "12345", "1234", " ", "  ", "\n", "\t", "群", "a", "\u{3000}", "99999", "x\n", "\r"];
    for a in pieces.iter() {
        for b in pieces.iter() {
            for c in pieces.iter() {
                let old = format!("{a}{b}{c}");
                for end in [false, true] {
                    assert_eq!(
                        compute_new_name(&old, "66666", end),
                        reference_rename(&old, "66666", end),
                        "{:?} end={}",
                        old,
                        end
                    );
                }
            }
        }
    }
    let long = format!("12345 {}", "名".repeat(70));
    for end in [false, true] {
        assert_eq!(compute_new_name(&long, "66666", end), reference_rename(&long, "66666", end));
    }
}
