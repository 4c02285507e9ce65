use collectune::metadata::{parse_tag_value_into_u8, parse_tag_value_into_year, TagValue};
use collectune::prepare::is_disc_folder;

const ALPHABET: [char; 14] =
    ['0', '1', '2', '5', '9', ' ', '\t', '\u{a0}', 'd', 'i', 's', 'c', 'D', 'é'];

/// Every text over the alphabet with at most `max` characters.
fn texts(max: usize) -> Vec<String> {
    let mut all = vec![String::new()];
    let mut last = vec![String::new()];
    for _ in 0..max {
        let mut next = Vec::new();
        for t in &last {
            for c in ALPHABET {
                let mut u = t.clone();
                u.push(c);
                next.push(u);
            }
        }
        all.extend(next.iter().cloned());
        last = next;
    }
    all
}

fn number_by_std(v: &str) -> Option<u8> {
    let start = v.find(|c: char| c.is_ascii_digit())?;
    let end = v[start..].find(|c: char| !c.is_ascii_digit()).map_or(v.len(), |i| start + i);
    v[start..end].parse::<u8>().ok()
}

fn year_by_std(v: &str, current_year: i32) -> Option<u16> {
    let start = v.find(|c: char| c.is_ascii_digit())?;
    let run: String = v[start..].chars().take(4).collect();
    if !run.chars().all(|c| c.is_ascii_digit()) {
        return None;
    }
    let year = run.parse::<u16>().ok()?;
    (i32::from(year) > 1860 && i32::from(year) <= current_year + 1).then_some(year)
}

fn disc_folder_by_std(name: &str) -> bool {
    let lower = name.to_ascii_lowercase();
    ["disc", "cd", "disk"].iter().any(|prefix| match lower.strip_prefix(prefix) {
        Some(rest) => {
            let rest = rest.trim();
            !rest.is_empty() && rest.chars().all(|c| c.is_ascii_digit())
        }
        None => false,
    })
}

#[test]
fn numbers_agree_with_std_parsing() {
    for t in texts(4) {
        let got = parse_tag_value_into_u8(&TagValue::String(t.clone()));
        assert_eq!(got, number_by_std(&t), "{:?}", t);
    }
    for t in ["255", "256", "0255", "00256", "1000", "99999", "a12b34", "12345678901234567890"] {
        let got = parse_tag_value_into_u8(&TagValue::String(t.to_string()));
        assert_eq!(got, number_by_std(t), "{:?}", t);
    }
}

#[test]
fn years_agree_with_std_parsing() {
    for t in texts(4) {
        for prefix in ["", "19", "20", "x2"] {
            let text = format!("{}{}", prefix, t);
            let got = parse_tag_value_into_year(&TagValue::String(text.clone()), 2026);
            assert_eq!(got, year_by_std(&text, 2026), "{:?}", text);
        }
    }
    for year in 1850u16..2040 {
        for current in [1859i16, 1860, 1999, 2026, 2027] {
            let text = format!("{}-01-01", year);
            let got = parse_tag_value_into_year(&TagValue::String(text.clone()), current);
            assert_eq!(got, year_by_std(&text, i32::from(current)), "{:?}", text);
        }
    }
}

#[test]
fn disc_folders_agree_with_std_trimming() {
    for t in texts(4) {
        for prefix in ["", "disc", "Disk", "CD", "cd ", "dis", "c"] {
            let name = format!("{}{}", prefix, t);
            assert_eq!(is_disc_folder(&name), disc_folder_by_std(&name), "{:?}", name);
        }
    }
    for c in ['\u{b}', '\u{c}', '\r', '\n', '\u{85}', '\u{1680}', '\u{2000}', '\u{200a}',
        '\u{2028}', '\u{2029}', '\u{202f}', '\u{205f}', '\u{3000}', '\u{200b}', '\u{180e}',
        '\u{feff}', '\u{1c}', '\u{1f}']
    {
        let name = format!("cd{}7{}", c, c);
        assert_eq!(is_disc_folder(&name), disc_folder_by_std(&name), "{:?}", name);
    }
}

#[test]
fn character_classes_agree_with_std() {
    for n in 0..=0x10ffffu32 {
        if let Some(c) = char::from_u32(n) {
            assert_eq!(collectune::text::char_is_space(c), c.is_whitespace(), "{:?}", c);
            assert_eq!(collectune::text::char_is_digit(c), c.is_ascii_digit(), "{:?}", c);
            assert_eq!(collectune::text::char_to_lower(c), c.to_ascii_lowercase(), "{:?}", c);
        }
    }
}

#[test]
fn text_helpers_agree_with_std() {
    for t in texts(3) {
        let chars: Vec<char> = t.chars().collect();
        assert_eq!(collectune::text::chars_of(&t), chars);
        let lower: Vec<char> = t.to_ascii_lowercase().chars().collect();
        assert_eq!(collectune::text::lowered(&t), lower);
        assert!(collectune::text::chars_equal(&chars, &t));
    }
    let parts = vec!["a".to_string(), String::new(), "b, c".to_string()];
    assert_eq!(collectune::text::join_with_comma(&parts), parts.join(", "));
    assert_eq!(collectune::text::join_with_comma(&parts[..1].to_vec()), "a");
    assert_eq!(collectune::text::join_with_comma(&Vec::new()), "");
    assert!(collectune::text::contains_text(&parts, &String::new()));
    assert!(!collectune::text::contains_text(&parts, &"b".to_string()));
    assert!(!collectune::text::chars_equal(&vec!['a', 'b'], "a"));
    assert!(!collectune::text::chars_equal(&vec!['a'], "b"));
}

#[test]
fn extensions_agree_with_std_paths() {
    let alphabet = ['.', 'a', 'B', ' ', 'é', '-'];
    let mut names = vec![String::new()];
    let mut last = vec![String::new()];
    for _ in 0..5 {
        let mut next = Vec::new();
        for t in &last {
            for c in alphabet {
                let mut u = t.clone();
                u.push(c);
                next.push(u);
            }
        }
        names.extend(next.iter().cloned());
        last = next;
    }
    for name in names {
        if name.is_empty() || name == "." || name == ".." {
            continue;
        }
        let by_std =
            std::path::Path::new(&name).extension().map(|e| e.to_string_lossy().into_owned());
        assert_eq!(collectune::paths::extension_of_name(&name), by_std, "{:?}", name);
        assert_eq!(collectune::paths::extension_of(&name), by_std, "{:?}", name);
        let nested = format!("dir.x/sub/{}", name);
        assert_eq!(collectune::paths::extension_of(&nested), by_std, "{:?}", nested);
    }
    assert_eq!(collectune::paths::extension_of(""), None);
    assert_eq!(collectune::paths::extension_of("a.b/.."), None);
    assert_eq!(collectune::paths::extension_of("a.b/"), Some("b".to_string()));
    assert_eq!(collectune::paths::extension_of("a.b/."), Some("b".to_string()));
    assert_eq!(collectune::paths::extension_of("/"), None);
}
