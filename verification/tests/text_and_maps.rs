use securum_exire::hex::hex_lower_chars;
use securum_exire::string_map::StringMap;
use securum_exire::text::{
    byte_offsets, chars_equal, contains_chars, find_first, find_last, find_sub, split, take_prefix,
    to_ascii_upper, trim, Strip,
};

fn chars(s: &str) -> Vec<char> {
    s.chars().collect()
}

fn text(v: &[char]) -> String {
    v.iter().collect()
}

#[test]
fn hex_of_bytes() {
    assert_eq!(text(&hex_lower_chars(&[0xbe, 0xef, 0x00, 0x0a])), "beef000a");
    assert_eq!(text(&hex_lower_chars(&[])), "");
}

#[test]
fn hex_agrees_with_data_encoding() {
    let bytes: Vec<u8> = (0u8..=255).collect();
    assert_eq!(text(&hex_lower_chars(&bytes)), data_encoding::HEXLOWER.encode(&bytes));
}

#[test]
fn trim_white_space_and_quotes() {
    assert_eq!(text(&trim(&chars(" \t key = v \r\n"), Strip::WhiteSpace)), "key = v");
    assert_eq!(text(&trim(&chars("\u{3000}x\u{a0}"), Strip::WhiteSpace)), "x");
    assert_eq!(text(&trim(&chars("   "), Strip::WhiteSpace)), "");
    assert_eq!(text(&trim(&chars("\"\"a\"b\"\""), Strip::Quote)), "a\"b");
    assert_eq!(text(&trim(&chars("\"\"\""), Strip::Quote)), "");
}

#[test]
fn trim_matches_std() {
    for s in [" a ", "\u{2003}b\u{85}", "x", "", " \u{1680} "] {
        assert_eq!(text(&trim(&chars(s), Strip::WhiteSpace)), s.trim());
        assert_eq!(text(&trim(&chars(s), Strip::Quote)), s.trim_matches('"'));
    }
}

#[test]
fn split_like_std() {
    for s in ["a=b=c", "=", "", "abc", "a==b="] {
        let parts: Vec<String> = split(&chars(s), '=').iter().map(|p| text(p)).collect();
        let expected: Vec<String> = s.split('=').map(|p| p.to_string()).collect();
        assert_eq!(parts, expected);
    }
}

#[test]
fn searching() {
    let s = chars("a#b#c");
    assert_eq!(find_first(&s, '#'), Some(1));
    assert_eq!(find_last(&s, '#'), Some(3));
    assert_eq!(find_first(&s, 'z'), None);
    assert_eq!(find_last(&s, 'z'), None);
    assert_eq!(find_sub(&chars("xxHALT_SCANyy"), &chars("HALT_SCAN")), Some(2));
    assert_eq!(find_sub(&chars("HALT"), &chars("HALT_SCAN")), None);
    assert_eq!(find_sub(&chars("abc"), &chars("")), Some(0));
    assert!(contains_chars(&chars("the secret is here"), &chars("secret")));
    assert!(!contains_chars(&chars("the secret is here"), &chars("token")));
}

#[test]
fn byte_offsets_count_utf8_bytes() {
    let s = chars("aé€😀");
    assert_eq!(byte_offsets(&s), vec![0, 1, 3, 6, 10]);
}

#[test]
fn upper_case_and_prefix() {
    assert_eq!(text(&to_ascii_upper(&chars("Staging-é"))), "STAGING-é");
    assert_eq!(text(&take_prefix(&chars("abcdef"), 3)), "abc");
    assert_eq!(text(&take_prefix(&chars("ab"), 30)), "ab");
    assert!(chars_equal(&chars("abc"), &chars("abc")));
    assert!(!chars_equal(&chars("abc"), &chars("abd")));
    assert!(!chars_equal(&chars("abc"), &chars("ab")));
}

#[test]
fn map_insert_replaces_in_place() {
    let mut m = StringMap::new();
    m.insert("a".to_string(), "1".to_string());
    m.insert("b".to_string(), "2".to_string());
    m.insert("a".to_string(), "3".to_string());
    assert_eq!(m.len(), 2);
    assert_eq!(m.keys(), vec!["a".to_string(), "b".to_string()]);
    assert_eq!(m.values(), vec!["3".to_string(), "2".to_string()]);
    assert_eq!(m.get(&"a".to_string()), Some(&"3".to_string()));
    assert_eq!(m.get(&"c".to_string()), None);
}

#[test]
fn map_merge_prefers_new_values() {
    let mut m = StringMap::from_pairs(vec![
        ("a".to_string(), "1".to_string()),
        ("b".to_string(), "2".to_string()),
    ]);
    let n = StringMap::from_pairs(vec![
        ("b".to_string(), "20".to_string()),
        ("c".to_string(), "30".to_string()),
    ]);
    m.merge(&n);
    assert_eq!(m.len(), 3);
    assert_eq!(m.get(&"a".to_string()), Some(&"1".to_string()));
    assert_eq!(m.get(&"b".to_string()), Some(&"20".to_string()));
    assert_eq!(m.get(&"c".to_string()), Some(&"30".to_string()));
}

#[test]
fn from_pairs_last_wins() {
    let m = StringMap::from_pairs(vec![
        ("k".to_string(), "1".to_string()),
        ("k".to_string(), "2".to_string()),
    ]);
    assert_eq!(m.len(), 1);
    assert_eq!(m.get(&"k".to_string()), Some(&"2".to_string()));
    assert_eq!(m.entries().clone(), vec![("k".to_string(), "2".to_string())]);
}
