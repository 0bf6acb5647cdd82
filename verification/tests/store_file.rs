use safe::format::{add_line_to_file, get_all_safe_keys, handle_add_key, parse_line, Line};
use safe::store::{Entry, Store};
use safe::text::{is_whitespace, string_of, to_chars, trimmed};

fn entry(key: &str, password: &str) -> Entry {
    Entry { key: key.to_string(), password: password.to_string() }
}

fn password_of(store: &Store, key: &str) -> Option<String> {
    store.get(&key.to_string()).cloned()
}

/// What the std functions make of a store file: the pairs in file order,
/// and the numbers of the lines without a `=`.
fn read_with_std(content: &str) -> (Vec<(String, String)>, Vec<usize>) {
    let mut pairs = Vec::new();
    let mut malformed = Vec::new();
    let mut number = 0;
    for line in content.lines() {
        number += 1;
        if line.trim().is_empty() {
            continue;
        }
        match line.split_once('=') {
            Some((key, value)) => {
                pairs.push((key.trim().to_string(), value.trim_end_matches(';').to_string()))
            }
            None => malformed.push(number),
        }
    }
    (pairs, malformed)
}

#[test]
fn line_is_key_equals_password_semicolon() {
    assert_eq!(handle_add_key("site", "pw123"), "site=pw123;");
    assert_eq!(handle_add_key("", ""), "=;");
    assert_eq!(handle_add_key("a b", "p=q;"), "a b=p=q;;");
}

#[test]
fn line_is_appended_with_a_line_feed() {
    let mut content = String::new();
    add_line_to_file(&mut content, "site=pw123;");
    assert_eq!(content, "site=pw123;\n");
    add_line_to_file(&mut content, "other=x;");
    assert_eq!(content, "site=pw123;\nother=x;\n");
}

#[test]
fn round_trip() {
    let mut content = String::new();
    let line = handle_add_key("site", "pw123");
    add_line_to_file(&mut content, &line);
    let loaded = get_all_safe_keys(&content);
    assert_eq!(password_of(&loaded.store, "site"), Some("pw123".to_string()));
    assert_eq!(loaded.store.len(), 1);
    assert!(loaded.malformed.is_empty());
}

#[test]
fn round_trip_after_other_entries() {
    let mut content = String::from("alpha=x;\nbeta=y;\n");
    let line = handle_add_key("site", "pw123");
    add_line_to_file(&mut content, &line);
    let loaded = get_all_safe_keys(&content);
    assert_eq!(loaded.store.keys(), vec!["alpha", "beta", "site"]);
    assert_eq!(password_of(&loaded.store, "alpha"), Some("x".to_string()));
    assert_eq!(password_of(&loaded.store, "beta"), Some("y".to_string()));
    assert_eq!(password_of(&loaded.store, "site"), Some("pw123".to_string()));
}

#[test]
fn malformed_line_tolerance() {
    let loaded = get_all_safe_keys("valid=pw;\nthis line has no separator\n");
    assert_eq!(loaded.store.len(), 1);
    assert_eq!(loaded.store.keys(), vec!["valid"]);
    assert_eq!(password_of(&loaded.store, "valid"), Some("pw".to_string()));
    assert_eq!(loaded.malformed, vec![2]);
}

#[test]
fn malformed_lines_are_numbered_from_one_counting_blank_lines() {
    let loaded = get_all_safe_keys("oops\n\n  \na=1;\nagain\nb=2;\nlast");
    assert_eq!(loaded.malformed, vec![1, 5, 7]);
    assert_eq!(loaded.store.keys(), vec!["a", "b"]);
}

#[test]
fn empty_file_holds_nothing() {
    let loaded = get_all_safe_keys("");
    assert_eq!(loaded.store.len(), 0);
    assert!(loaded.store.keys().is_empty());
    assert!(loaded.malformed.is_empty());
    assert_eq!(password_of(&loaded.store, "site"), None);
}

#[test]
fn later_line_wins_and_keeps_the_first_place() {
    let loaded = get_all_safe_keys("a=1;\nb=2;\na=3;\n");
    assert_eq!(loaded.store.len(), 2);
    assert_eq!(loaded.store.keys(), vec!["a", "b"]);
    assert_eq!(password_of(&loaded.store, "a"), Some("3".to_string()));
    assert_eq!(password_of(&loaded.store, "b"), Some("2".to_string()));
}

#[test]
fn last_line_needs_no_line_feed() {
    let loaded = get_all_safe_keys("a=1;\nb=2;");
    assert_eq!(loaded.store.keys(), vec!["a", "b"]);
    assert_eq!(password_of(&loaded.store, "b"), Some("2".to_string()));
}

#[test]
fn carriage_return_before_line_feed_ends_the_line() {
    let loaded = get_all_safe_keys("a=1;\r\nb=2\r\n");
    assert_eq!(password_of(&loaded.store, "a"), Some("1".to_string()));
    assert_eq!(password_of(&loaded.store, "b"), Some("2".to_string()));
}

#[test]
fn lone_carriage_return_belongs_to_the_line() {
    let loaded = get_all_safe_keys("a=1\rx;\nb=2\r");
    assert_eq!(password_of(&loaded.store, "a"), Some("1\rx".to_string()));
    assert_eq!(password_of(&loaded.store, "b"), Some("2\r".to_string()));
}

#[test]
fn parse_line_reads_each_kind() {
    assert_eq!(parse_line(""), Line::Blank);
    assert_eq!(parse_line(" \t "), Line::Blank);
    assert_eq!(parse_line("no separator"), Line::Malformed);
    assert_eq!(parse_line("site=pw123;"), Line::Pair(entry("site", "pw123")));
}

#[test]
fn parse_line_trims_the_key_and_only_the_key() {
    assert_eq!(parse_line("  site \t= pw 123 ;"), Line::Pair(entry("site", " pw 123 ")));
    assert_eq!(parse_line("site=pw; "), Line::Pair(entry("site", "pw; ")));
}

#[test]
fn parse_line_splits_at_the_first_separator() {
    assert_eq!(parse_line("a=b=c;"), Line::Pair(entry("a", "b=c")));
    assert_eq!(parse_line("=pw;"), Line::Pair(entry("", "pw")));
    assert_eq!(parse_line("key="), Line::Pair(entry("key", "")));
}

#[test]
fn parse_line_drops_every_semicolon_at_the_end() {
    assert_eq!(parse_line("a=b;;;"), Line::Pair(entry("a", "b")));
    assert_eq!(parse_line("a=;b"), Line::Pair(entry("a", ";b")));
    assert_eq!(parse_line("a=b"), Line::Pair(entry("a", "b")));
    assert_eq!(parse_line("a=;"), Line::Pair(entry("a", "")));
}

#[test]
fn loading_agrees_with_the_std_functions() {
    let contents = [
        "",
        "\n",
        "\n\n",
        "a=1;",
        "a=1;\n",
        "a=1;\r\n",
        "a=1;\r",
        " a = 1 ;\n\tb\t=\t2;;\n",
        "x\ny\n\nz=\n=w\n",
        "k=v\r\r\nq\r\n\r\nlast=1;;;",
        "\u{a0}key\u{2003}= p\u{3000};\n\u{2028}\n\u{85}=\u{85}\n",
        "é=ü;\nключ=пароль;\n鍵=値;;\n",
        "a=1;\nb=2;\na=3;\nc\nb=4;\n",
        "==;;\n;=;\n= ;\n",
        "\r\n\r\n=\r\n",
        "no newline at all",
    ];
    for content in contents {
        let loaded = get_all_safe_keys(content);
        let (pairs, malformed) = read_with_std(content);
        assert_eq!(loaded.malformed, malformed, "in {:?}", content);
        let mut expected = Store::new();
        for (key, password) in &pairs {
            expected.insert(key.clone(), password.clone());
        }
        assert_eq!(loaded.store, expected, "in {:?}", content);
        for (key, _) in &pairs {
            let last = pairs.iter().rev().find(|(k, _)| k == key).map(|(_, p)| p.clone());
            assert_eq!(loaded.store.get(key).cloned(), last, "in {:?}", content);
        }
    }
}

#[test]
fn white_space_is_what_std_calls_white_space() {
    for code in 0..=0x10FFFFu32 {
        if let Some(c) = char::from_u32(code) {
            assert_eq!(is_whitespace(c), c.is_whitespace(), "at U+{:04X}", code);
        }
    }
}

#[test]
fn trimmed_agrees_with_std_trim() {
    let samples = [
        "",
        " ",
        "a",
        " a",
        "a ",
        "  a b  ",
        "\t\n\r x \u{b}\u{c}",
        "\u{a0}\u{1680}é y\u{2000}\u{200a}\u{202f}\u{205f}\u{3000}",
        "\u{200b}zero width is kept\u{200b}",
        " \u{feff}bom is kept ",
    ];
    for sample in samples {
        assert_eq!(trimmed(sample), sample.trim(), "for {:?}", sample);
    }
    assert_eq!(trimmed("  git \n"), "git");
}

#[test]
fn chars_and_back() {
    let chars = to_chars("aé鍵=;");
    assert_eq!(chars, vec!['a', 'é', '鍵', '=', ';']);
    assert_eq!(string_of(&chars, 1, 3), "é鍵");
    assert_eq!(string_of(&chars, 0, 5), "aé鍵=;");
    assert_eq!(string_of(&chars, 2, 2), "");
}

#[test]
fn store_insert_get_and_order() {
    let mut store = Store::new();
    assert_eq!(store.len(), 0);
    store.insert("b".to_string(), "1".to_string());
    store.insert("a".to_string(), "2".to_string());
    store.insert("b".to_string(), "3".to_string());
    assert_eq!(store.len(), 2);
    assert_eq!(store.keys(), vec!["b", "a"]);
    assert_eq!(store.position(&"b".to_string()), 0);
    assert_eq!(store.position(&"a".to_string()), 1);
    assert_eq!(store.position(&"c".to_string()), 2);
    assert_eq!(store.entry(0), &entry("b", "3"));
    assert_eq!(store.entry(1), &entry("a", "2"));
    assert_eq!(password_of(&store, "b"), Some("3".to_string()));
    assert_eq!(password_of(&store, "c"), None);
    store.distinct();
}
