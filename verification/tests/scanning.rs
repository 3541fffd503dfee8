use securum_exire::env_file::{
    credentials_path, find_output_paths, parse_env_file, parse_env_file_plain, parse_env_line, EnvLine,
};
use securum_exire::json::{encode_credentials, parse_credentials};
use securum_exire::string_map::StringMap;

fn get(m: &StringMap, k: &str) -> Option<String> {
    m.get(&k.to_string()).cloned()
}

fn line(s: &str) -> Vec<char> {
    s.chars().collect()
}

#[test]
fn plain_key_value_lines() {
    let m = parse_env_file("API_KEY=abc123\nDB_PASS=hunter2\n");
    assert_eq!(m.len(), 2);
    assert_eq!(get(&m, "API_KEY"), Some("abc123".to_string()));
    assert_eq!(get(&m, "DB_PASS"), Some("hunter2".to_string()));
}

#[test]
fn white_space_quotes_and_equal_signs() {
    let m = parse_env_file("  \"TOKEN\"=\"t0k3n\"  \nURL=a=b=c\nnot an entry\n");
    assert_eq!(m.len(), 2);
    assert_eq!(get(&m, "TOKEN"), Some("t0k3n".to_string()));
    assert_eq!(get(&m, "URL"), Some("abc".to_string()));
}

#[test]
fn comments_are_cut() {
    let m = parse_env_file("A=1 # the first\n# B=2\nC=\"x#y\" # quoted sign\n");
    assert_eq!(get(&m, "A"), Some("1 ".to_string()));
    assert_eq!(get(&m, "B"), None);
    assert_eq!(get(&m, "C"), Some("x#y".to_string()));
    assert_eq!(m.len(), 2);
}

#[test]
fn halt_scan_after_comment_ends_the_scan() {
    let m = parse_env_file("A=1\n# HALT_SCAN\nB=2\n");
    assert_eq!(m.len(), 1);
    assert_eq!(get(&m, "A"), Some("1".to_string()));
    let m = parse_env_file("HALT_SCAN=1 # not a halt\nB=2\n");
    assert_eq!(m.len(), 2);
    assert_eq!(get(&m, "HALT_SCAN"), Some("1 ".to_string()));
}

#[test]
fn later_entries_override() {
    let m = parse_env_file("K=1\nK=2\n");
    assert_eq!(m.len(), 1);
    assert_eq!(get(&m, "K"), Some("2".to_string()));
}

#[test]
fn comment_cut_counts_bytes() {
    // The comment sign sits at byte 5 but character 4: five characters are kept.
    match parse_env_line(&line("é=ab#cd")) {
        EnvLine::Entry(k, v) => {
            assert_eq!(k, "é");
            assert_eq!(v, "ab#");
        }
        _ => panic!("expected an entry"),
    }
    assert!(matches!(parse_env_line(&line("x # HALT_SCAN")), EnvLine::Halt));
    assert!(matches!(parse_env_line(&line("no equal sign")), EnvLine::Skip));
}

#[test]
fn plain_reading_keeps_text_as_is() {
    let m = parse_env_file_plain(" A = 1 \nB=x=y\nC\n");
    assert_eq!(m.len(), 2);
    assert_eq!(get(&m, " A "), Some(" 1 ".to_string()));
    assert_eq!(get(&m, "B"), Some("x".to_string()));
}

#[test]
fn find_output_lines() {
    assert_eq!(
        find_output_paths("/home/u/.env\n/home/u/p/.env\n"),
        vec!["/home/u/.env".to_string(), "/home/u/p/.env".to_string()]
    );
    assert_eq!(find_output_paths("/a/.env"), Vec::<String>::new());
    assert_eq!(find_output_paths(""), Vec::<String>::new());
}

#[test]
fn output_path() {
    assert_eq!(credentials_path("/tmp/out"), "/tmp/out/credentials.json");
}

#[test]
fn credentials_json_round_trip() {
    let m = parse_credentials(br#"{"b":"2","a":"1"}"#);
    assert_eq!(m.len(), 2);
    assert_eq!(get(&m, "a"), Some("1".to_string()));
    assert_eq!(get(&m, "b"), Some("2".to_string()));
    let text = encode_credentials(&m);
    assert_eq!(text, r#"{"a":"1","b":"2"}"#);
    let again = parse_credentials(text.as_bytes());
    assert_eq!(again.len(), 2);
    assert_eq!(get(&again, "b"), Some("2".to_string()));
}

#[test]
fn bad_credentials_file_gives_nothing() {
    assert_eq!(parse_credentials(b"not json").len(), 0);
    assert_eq!(parse_credentials(br#"{"a": 1}"#).len(), 0);
    assert_eq!(parse_credentials(b"").len(), 0);
}

#[test]
fn escaped_json_text() {
    let m = StringMap::from_pairs(vec![("q\"k".to_string(), "line\nbreak".to_string())]);
    assert_eq!(encode_credentials(&m), r#"{"q\"k":"line\nbreak"}"#);
}
