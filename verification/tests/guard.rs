use securum_exire::config::{
    config_locations, sanitize_conf, sanitize_outcome, select_conf, selection_panics, Conf,
    ConfError, SecExireConf,
};
use securum_exire::digest::{md5_encode, sha256_encode};
use securum_exire::endpoints::{
    block_record, blocked_listing, endpoint_record, leak_report_url, listing_lookup_key,
    signal_secret_key, status_key, status_response, store_response, unblock_pattern,
    unblock_response,
};
use securum_exire::leak_check::{
    check_request, scan_by_containment, scan_payload, HttpStatus, ScanMethod,
};
use securum_exire::leak_model::LeakModel;
use securum_exire::leak_task::{leak_task_step, TaskAction, TaskEvent};
use securum_exire::string_map::StringMap;

fn section(addr: &str, signal: &str, path: &str) -> SecExireConf {
    SecExireConf {
        redis_url: "redis://127.0.0.1/".to_string(),
        secrets_file_path: path.to_string(),
        listening_port_address: addr.to_string(),
        signal_server_address: signal.to_string(),
    }
}

fn store() -> StringMap {
    StringMap::from_pairs(vec![
        ("AWS_KEY".to_string(), "AKIA1234".to_string()),
        ("DB_PASS".to_string(), "hunter2".to_string()),
    ])
}

#[test]
fn digests_in_hex() {
    assert_eq!(
        sha256_encode(b"abc"),
        "ba7816bf8f01cfea414140de5dae2223b00361a396177a9cb410ff61f20015ad"
    );
    assert_eq!(md5_encode(b"abc"), "900150983cd24fb0d6963f7d28e17f72");
    assert_eq!(md5_encode(b""), "d41d8cd98f00b204e9800998ecf8427e");
}

#[test]
fn choose_section_by_environment() {
    let conf = || Conf {
        production: Some(section("0.0.0.0:9000", "localhost:9001", "/p")),
        development: Some(section("0.0.0.0:9000", "localhost:9001", "/d")),
        staging: Some(section("0.0.0.0:9000", "localhost:9001", "/s")),
    };
    assert_eq!(select_conf("production", conf()).unwrap().secrets_file_path, "/p");
    assert_eq!(select_conf("Development", conf()).unwrap().secrets_file_path, "/d");
    assert_eq!(select_conf("STAGING", conf()).unwrap().secrets_file_path, "/s");
    assert_eq!(select_conf("test", conf()).err(), Some(ConfError::InvalidEnv));
}

#[test]
fn missing_sections() {
    let none = || Conf { production: None, development: None, staging: None };
    assert_eq!(select_conf("production", none()).err(), Some(ConfError::ProductionMissing));
    assert_eq!(select_conf("development", none()).err(), Some(ConfError::DevelopmentMissing));
    assert_eq!(select_conf("staging", none()).err(), Some(ConfError::DevelopmentMissing));
    let only_dev = Conf {
        production: None,
        development: Some(section("0.0.0.0:1", "h", "/d")),
        staging: None,
    };
    assert!(selection_panics("staging", &only_dev));
    assert!(!selection_panics("development", &only_dev));
    assert_eq!(ConfError::InvalidEnv.message(), "error: invalid env type flag [development/staging/production]");
    assert_eq!(ConfError::ProductionMissing.message(), "error: production credentials not found!");
}

#[test]
fn sanitize_addresses() {
    let ok = sanitize_conf(&section("127.0.0.1:9000", "localhost:9001", "/s"), true);
    assert_eq!(ok, (true, "successful".to_string()));
    let bad = sanitize_conf(&section("localhost:9000", "localhost:9001", "/s"), true);
    assert_eq!(bad, (false, "error: invalid listening_port_address [USAGE: 0.0.0.0:9000]".to_string()));
    let bad = sanitize_conf(&section("1.2.3.4:5", "http://x:1", "/s"), true);
    assert_eq!(bad, (false, "error: invalid signal_server_address [USAGE: http://localhost:9000]".to_string()));
    let bad = sanitize_conf(&section("1.2.3.4:5", "signal.example.com", "/nowhere"), false);
    assert_eq!(bad, (false, "error: path[/nowhere] secrets_file_path doesn't exist".to_string()));
    assert_eq!(sanitize_outcome(true, true, true, "/x"), (true, "successful".to_string()));
}

#[test]
fn configuration_paths() {
    let (dir, file) = config_locations("/home/u");
    assert_eq!(dir, "/home/u/.securum_exire");
    assert_eq!(file, "/home/u/.securum_exire/securum.toml.example");
}

#[test]
fn bot_message() {
    let leak = LeakModel {
        endpoint: "/api/users".to_string(),
        leaked_credentials: vec!["AWS_KEY".to_string(), "q\"uote".to_string()],
        payload_hash: String::new(),
        endpoint_hash: String::new(),
    };
    assert_eq!(
        leak.create_bot_message(),
        "Leaks for the following params[\"AWS_KEY\", \"q\\\"uote\"] have occurred at:\n /api/users"
    );
    let none = LeakModel {
        endpoint: "/".to_string(),
        leaked_credentials: vec![],
        payload_hash: String::new(),
        endpoint_hash: String::new(),
    };
    assert_eq!(none.create_bot_message(), "Leaks for the following params[] have occurred at:\n /");
}

#[test]
fn automaton_scan_reports_each_match() {
    let s = store();
    let found = scan_payload(&s, b"{\"k\":\"AKIA1234\",\"p\":\"hunter2\",\"again\":\"AKIA1234\"}");
    assert_eq!(found, vec!["AWS_KEY".to_string(), "DB_PASS".to_string(), "AWS_KEY".to_string()]);
    assert!(scan_payload(&s, b"nothing to see").is_empty());
}

#[test]
fn containment_scan_reports_each_credential_once() {
    let s = store();
    let found = scan_by_containment(&s, "hunter2 AKIA1234 hunter2");
    assert_eq!(found, vec!["AWS_KEY".to_string(), "DB_PASS".to_string()]);
    assert!(scan_by_containment(&s, "clean").is_empty());
}

#[test]
fn check_refuses_leaking_payload() {
    let s = store();
    let o = check_request(&s, "/api", b"pass=hunter2", false, ScanMethod::Automaton).unwrap();
    assert_eq!(o.status, HttpStatus::Forbidden);
    let l = o.report.unwrap();
    assert_eq!(l.endpoint, "/api");
    assert_eq!(l.leaked_credentials, vec!["DB_PASS".to_string()]);
    assert_eq!(l.payload_hash, sha256_encode(b"pass=hunter2"));
    assert_eq!(l.endpoint_hash, md5_encode(b"/api"));
}

#[test]
fn check_lets_clean_payload_through() {
    let s = store();
    let o = check_request(&s, "/api", b"all good", false, ScanMethod::Containment).unwrap();
    assert_eq!(o.status, HttpStatus::Success);
    assert!(o.report.is_none());
}

#[test]
fn check_known_leak_and_bad_text() {
    let s = store();
    let o = check_request(&s, "/e", &[0xff, 0xfe], true, ScanMethod::Automaton).unwrap();
    assert_eq!(o.status, HttpStatus::Forbidden);
    let l = o.report.unwrap();
    assert!(l.leaked_credentials.is_empty());
    assert_eq!(l.payload_hash, sha256_encode(&[0xff, 0xfe]));
    assert!(check_request(&s, "/e", &[0xff, 0xfe], false, ScanMethod::Automaton).is_none());
}

#[test]
fn blocking_is_found_by_status_check() {
    let ep = "/api/login";
    let (key, value) = block_record(&md5_encode(ep.as_bytes()));
    assert_eq!(key, status_key(ep));
    assert_eq!(value, md5_encode(ep.as_bytes()));
    assert_eq!(status_key(ep), format!("{}_blocked_endpoint", md5_encode(ep.as_bytes())));
    assert_eq!(status_response(true), HttpStatus::Forbidden);
    assert_eq!(status_response(false), HttpStatus::Success);
}

#[test]
fn listing_finds_recorded_endpoint() {
    let s = store();
    let o = check_request(&s, "/api/x", b"AKIA1234", false, ScanMethod::Automaton).unwrap();
    let leak = o.report.unwrap();
    let (record_key, record_value) = endpoint_record(&leak);
    let (blocked_key, _) = block_record(&leak.endpoint_hash);
    let lookup = listing_lookup_key(&blocked_key);
    assert_eq!(lookup, record_key);
    let listing = blocked_listing(&vec![lookup.clone()], &vec![record_value.clone()]);
    assert_eq!(listing.len(), 1);
    assert_eq!(listing.get(&leak.endpoint_hash), Some(&"/api/x".to_string()));
}

#[test]
fn other_keys_and_statuses() {
    assert_eq!(unblock_pattern("abc"), "*abc*_blocked_endpoint");
    assert_eq!(signal_secret_key(), "SECURUM_EXIRE_SIGNAL_SERVER_SECRET");
    assert_eq!(leak_report_url(), "http://localhost:9000/report/leak");
    assert_eq!(unblock_response(false, true), HttpStatus::ServerError);
    assert_eq!(unblock_response(true, true), HttpStatus::Success);
    assert_eq!(unblock_response(true, false), HttpStatus::NotFound);
    assert_eq!(store_response(true), HttpStatus::Success);
    assert_eq!(store_response(false), HttpStatus::ServerError);
}

#[test]
fn leak_task_steps() {
    let leak = LeakModel {
        endpoint: "/".to_string(),
        leaked_credentials: vec![],
        payload_hash: "ph".to_string(),
        endpoint_hash: "eh".to_string(),
    };
    match leak_task_step(TaskEvent::Received(Some(leak))) {
        TaskAction::Record { payload_key, leak } => {
            assert_eq!(payload_key, "ph");
            assert_eq!(leak.endpoint_hash, "eh");
        }
        _ => panic!("expected a record action"),
    }
    assert!(matches!(leak_task_step(TaskEvent::Received(None)), TaskAction::Wait));
    assert!(matches!(leak_task_step(TaskEvent::Signal), TaskAction::Stop));
}

#[test]
fn refused_exactly_when_a_credential_is_present() {
    let s = store();
    let cases: [(&[u8], bool); 5] = [
        (b"AKIA1234", true),
        (b"xx hunter2 yy", true),
        (b"hunter", false),
        (b"AKIA123", false),
        (b"", false),
    ];
    for (payload, present) in cases.iter() {
        for method in [ScanMethod::Automaton, ScanMethod::Containment] {
            let o = check_request(&s, "/p", payload, false, method).unwrap();
            assert_eq!(o.status == HttpStatus::Forbidden, *present);
            assert_eq!(o.report.is_some(), *present);
        }
    }
}

#[test]
fn listing_shows_every_blocked_endpoint() {
    let s = store();
    let mut records = std::collections::BTreeMap::new();
    let mut lookups = Vec::new();
    for ep in ["/a", "/b/c", "/a"] {
        let leak = check_request(&s, ep, b"hunter2", false, ScanMethod::Automaton)
            .unwrap()
            .report
            .unwrap();
        let (k, v) = endpoint_record(&leak);
        records.insert(k, v);
        let (blocked_key, _) = block_record(&leak.endpoint_hash);
        lookups.push(listing_lookup_key(&blocked_key));
    }
    let endpoints: Vec<String> = lookups.iter().map(|k| records[k].clone()).collect();
    let listing = blocked_listing(&lookups, &endpoints);
    assert_eq!(listing.len(), 2);
    assert_eq!(listing.get(&md5_encode(b"/a")), Some(&"/a".to_string()));
    assert_eq!(listing.get(&md5_encode(b"/b/c")), Some(&"/b/c".to_string()));
}
