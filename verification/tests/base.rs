use atomic_usb::json::{
    number, opt_number, opt_text, same_value, text, text_at, texts, without_nulls, Members, Value,
};
use atomic_usb::table::Table;
use atomic_usb::text::{
    decimal_i64, decimal_u64, digit, is_whitespace, join, list_contains, parse_number,
    split_once, text_contains, text_eq, text_less, text_starts_with, trim,
};
use atomic_usb::watch::{generate_psk, parse_psk, psk_text, short_psk_message};

#[test]
fn white_space_is_that_of_unicode() {
    for n in 0..=0x10ffffu32 {
        if let Some(c) = char::from_u32(n) {
            assert_eq!(is_whitespace(c), c.is_whitespace(), "{n:x}");
        }
    }
}

#[test]
fn texts_are_trimmed_at_both_ends() {
    for s in ["", " ", " a b\t", "\u{a0}x\u{3000}", "\u{200b}x", "ü"] {
        assert_eq!(trim(s), s.trim());
    }
}

#[test]
fn texts_are_ordered_like_strings() {
    let list = ["", "a", "ab", "b", "é", "z", "\u{ffff}", "\u{10000}"];
    for a in list {
        for b in list {
            assert_eq!(text_less(a, b), a < b, "{a:?} {b:?}");
            assert_eq!(text_eq(a, b), a == b);
            assert_eq!(text_contains(a, b), a.contains(b));
            assert_eq!(text_starts_with(a, b), a.starts_with(b));
        }
    }
    assert!(text_contains("xabcabd", "abd"));
    assert!(!text_contains("xabcab", "abd"));
}

#[test]
fn texts_are_split_at_the_first_separator() {
    for s in ["", ":", "a:b:c", "abc", "ü:é"] {
        let expected = s
            .split_once(':')
            .map(|(a, b)| (a.to_string(), b.to_string()));
        assert_eq!(split_once(s, ':'), expected);
    }
}

#[test]
fn numbers_are_written_in_decimal() {
    for n in [0, 1, 9, 10, 99, 100, 12345, u64::MAX] {
        assert_eq!(decimal_u64(n), n.to_string());
    }
    for n in [0, -1, 1, -10, i64::MIN, i64::MAX] {
        assert_eq!(decimal_i64(n), n.to_string());
    }
    for d in 0..16u8 {
        assert_eq!(digit(d), char::from_digit(d as u32, 16).unwrap());
    }
}

#[test]
fn numbers_are_read_like_the_standard_library_does() {
    for s in [
        "", "+", "-", "0", "+7", "-7", "007", "4294967295", "4294967296", " 1", "1 ", "1a", "ff",
        "+-1", "99999999999999999999",
    ] {
        assert_eq!(parse_number(s, 10, u32::MAX), s.parse::<u32>().ok(), "{s:?}");
        assert_eq!(
            parse_number(s, 16, 255),
            u8::from_str_radix(s, 16).ok().map(|n| n as u32),
            "{s:?}"
        );
    }
    for s in ["FF", "0x1", "1ff", "+fF", "-0", "000000ff"] {
        assert_eq!(
            parse_number(s, 16, 255),
            u8::from_str_radix(s, 16).ok().map(|n| n as u32),
            "{s:?}"
        );
    }
}

#[test]
fn lists_are_joined() {
    let list = |items: &[&str]| -> Vec<String> { items.iter().map(|s| s.to_string()).collect() };
    assert_eq!(join(&list(&[]), ", "), "");
    assert_eq!(join(&list(&["a"]), ", "), "a");
    assert_eq!(join(&list(&["a", "", "b"]), ", "), "a, , b");
    assert!(list_contains(&list(&["a", "b"]), "b"));
    assert!(!list_contains(&list(&["a", "b"]), "c"));
}

#[test]
fn tables_hold_one_value_per_key() {
    let mut t: Table<String, u32> = Table::new();
    for (k, v) in [("a", 1), ("b", 2), ("a", 3), ("c", 4)] {
        t.insert(k.into(), v);
    }
    assert_eq!(t.len(), 3);
    assert_eq!(t.get(&"a".to_string()), Some(&3));
    assert_eq!(t.entry(0), (&"a".to_string(), &3));
    t.remove(&"a".to_string());
    assert!(!t.contains_key(&"a".to_string()));
    t.remove(&"x".to_string());
    assert_eq!(t.len(), 2);
    t.insert("d".into(), 5);
    t.remove_all(&["b".to_string(), "y".to_string()]);
    assert_eq!(t.len(), 2);
    t.retain_keys(&["d".to_string(), "z".to_string()]);
    assert_eq!(t.len(), 1);
    assert_eq!(t.get(&"d".to_string()), Some(&5));
}

#[test]
fn json_values_are_built_and_read() {
    let v = Members::new()
        .with("a", text("x"))
        .with("b", number(-5))
        .with("c", opt_text(&None))
        .with("d", opt_number(Some(7)))
        .with_text("e", &None)
        .with_some("f", Some(Value::Bool(true)))
        .with("g", texts(&["p".to_string(), "q".to_string()]))
        .with("h", Members::new().with("i", Value::Null).object())
        .object();
    assert_eq!(v.get("a").unwrap().as_str(), Some("x"));
    assert_eq!(v.get("b"), Some(&Value::Number("-5".into())));
    assert!(v.get("c").unwrap().is_null());
    assert_eq!(v.get("d"), Some(&Value::Number("7".into())));
    assert!(v.get("e").is_none());
    assert_eq!(v.get("f"), Some(&Value::Bool(true)));
    assert_eq!(
        v.get("g"),
        Some(&Value::Array(vec![
            Value::Text("p".into()),
            Value::Text("q".into())
        ]))
    );
    assert!(v.pointer(&["h", "i"]).unwrap().is_null());
    assert!(v.pointer(&["h", "j"]).is_none());
    assert!(v.pointer(&["a", "b"]).is_none());
    assert_eq!(text_at(Some(&v), "a").as_deref(), Some("x"));
    assert_eq!(text_at(Some(&v), "b"), None);
    assert_eq!(text_at(None, "a"), None);
    assert!(same_value(&v, &v.clone()));
    let plain = without_nulls(&v);
    assert!(plain.get("c").is_none());
    assert_eq!(plain.get("h"), Some(&Value::Object(vec![])));
}

#[test]
fn keys_are_trimmed_and_must_be_long_enough() {
    assert_eq!(
        parse_psk(b" \t0123456789abcdef\r\n\x0c").as_deref(),
        Some(&b"0123456789abcdef"[..])
    );
    assert_eq!(parse_psk(b"0123456789abcde\n"), None);
    assert_eq!(parse_psk(b""), None);
    // A vertical tab is no white space here.
    assert_eq!(parse_psk(b"\x0b0123456789abcdef").unwrap().len(), 17);
    for b in 0..=255u8 {
        let mut raw = vec![b; 3];
        raw.extend_from_slice(&[b'x'; 16]);
        assert_eq!(parse_psk(&raw).as_deref(), Some(raw.trim_ascii()));
    }
    assert_eq!(
        short_psk_message("/etc/psk"),
        "pre-shared key /etc/psk is shorter than 16 bytes"
    );
}

#[test]
fn keys_are_random_hexadecimal_text() {
    let key = generate_psk();
    assert_eq!(key.len(), 64);
    assert!(key
        .chars()
        .all(|c| c.is_ascii_digit() || ('a'..='f').contains(&c)));
    assert_ne!(key, generate_psk());
    assert_eq!(psk_text(&[0, 255, 16]), "00ff10");
}
