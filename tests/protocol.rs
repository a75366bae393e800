use sinadb::database::Database;
use sinadb::response::{parse, split_on_spaces, Response};
use sinadb::server::{handle_request, render_pairs, respond, respond_at};
use sinadb::text::{ends_with_text, same_text, starts_with_text};

#[test]
fn set_get_del_end_to_end() {
    let mut db = Database::new();
    assert_eq!(respond(&mut db, "SET foo bar"), "OK\n");
    assert_eq!(respond(&mut db, "GET foo"), "bar\n");
    assert_eq!(respond(&mut db, "DEL foo"), "OK\n");
    assert_eq!(respond(&mut db, "GET foo"), "Key does not exist\n");
    assert_eq!(respond(&mut db, "DEL foo"), "OK\n");
}

#[test]
fn get_star_on_empty_store() {
    let mut db = Database::new();
    assert_eq!(respond(&mut db, "GET *"), "none\n");
    respond(&mut db, "SET a 1");
    assert_eq!(respond(&mut db, "GET *"), "a = 1\n");
}

#[test]
fn explicit_zero_ttl_means_no_expiry() {
    let mut db = Database::new();
    assert_eq!(respond_at(&mut db, "SET a 1 0", 0), "OK\n");
    assert_eq!(respond_at(&mut db, "GET a", u128::MAX), "1\n");
    assert!(matches!(parse("SET a 1 0"), Response::Command(_, _, _, None)));
}

#[test]
fn ttl_expires_through_protocol() {
    let mut db = Database::new();
    assert_eq!(respond_at(&mut db, "SET a 1 2", 0), "OK\n");
    assert_eq!(respond_at(&mut db, "GET a", 2_000_000_000), "1\n");
    assert_eq!(respond_at(&mut db, "GET a", 2_000_000_001), "Key does not exist\n");
}

#[test]
fn malformed_requests() {
    let mut db = Database::new();
    assert!(respond(&mut db, "SET onlykey").contains("missing value"));
    assert!(respond(&mut db, "FOO bar").contains("unknown method"));
    assert_eq!(respond(&mut db, "FOO bar"), "unknown method `FOO`\n");
    assert_eq!(respond(&mut db, "GET"), "missing key\n");
    assert_eq!(respond(&mut db, ""), "missing key\n");
    assert_eq!(
        respond(&mut db, "SET a b x"),
        "could not parse TTL to uint: invalid digit found in string\n"
    );
    assert_eq!(
        respond(&mut db, "SET a b 99999999999999999999"),
        "could not parse TTL to uint: number too large to fit in target type\n"
    );
    assert_eq!(respond(&mut db, "GET a"), "Key does not exist\n");
}

#[test]
fn parse_reads_each_method() {
    match parse("SET k v 7") {
        Response::Command(m, k, v, t) => {
            assert_eq!((m.as_str(), k.as_str(), v.as_deref(), t), ("SET", "k", Some("v"), Some(7)));
        }
        other => panic!("unexpected {:?}", other),
    }
    match parse("SET k v +5") {
        Response::Command(_, _, _, t) => assert_eq!(t, Some(5)),
        other => panic!("unexpected {:?}", other),
    }
    match parse("GETSW ab extra") {
        Response::Command(m, k, v, t) => {
            assert_eq!((m.as_str(), k.as_str(), v, t), ("GETSW", "ab", None, None));
        }
        other => panic!("unexpected {:?}", other),
    }
    assert!(matches!(parse("DEL k"), Response::Command(_, _, None, None)));
    assert!(matches!(parse("GETEW k"), Response::Command(_, _, None, None)));
    match parse("SET k v -1") {
        Response::Error(e) => assert_eq!(e, "could not parse TTL to uint: invalid digit found in string"),
        other => panic!("unexpected {:?}", other),
    }
    match parse("SET k v +") {
        Response::Error(e) => assert_eq!(e, "could not parse TTL to uint: invalid digit found in string"),
        other => panic!("unexpected {:?}", other),
    }
    match parse("SET k v ") {
        Response::Error(e) => assert_eq!(e, "could not parse TTL to uint: cannot parse integer from empty string"),
        other => panic!("unexpected {:?}", other),
    }
}

#[test]
fn prefix_and_suffix_requests() {
    let mut db = Database::new();
    respond(&mut db, "SET abc 1");
    respond(&mut db, "SET abd 2");
    respond(&mut db, "SET xyz 3");
    let out = respond(&mut db, "GETSW ab");
    let mut lines: Vec<&str> = out.lines().collect();
    lines.sort();
    assert_eq!(lines, vec!["abc = 1", "abd = 2"]);
    assert_eq!(respond(&mut db, "GETEW c"), "abc = 1\n");
    assert_eq!(respond(&mut db, "GETSW q"), "No key starts with that pattern\n");
    assert_eq!(respond(&mut db, "GETEW q"), "No key ends with that pattern\n");
}

#[test]
fn handle_request_decodes_and_trims() {
    let mut db = Database::new();
    assert_eq!(handle_request(&mut db, b"  SET k v\r\n"), "OK\n");
    assert_eq!(handle_request(&mut db, b"GET k\n"), "v\n");
    assert_eq!(handle_request(&mut db, b"SET j \xff"), "OK\n");
    assert_eq!(handle_request(&mut db, b"GET j"), "\u{FFFD}\n");
}

#[test]
fn empty_read_gives_notice_and_reply() {
    let mut db = Database::new();
    assert_eq!(handle_request(&mut db, b""), "No data providedmissing key\n");
}

#[test]
fn splitting_keeps_empty_tokens() {
    assert_eq!(split_on_spaces("GET  k"), vec!["GET", "", "k"]);
    assert_eq!(split_on_spaces(""), vec![""]);
    assert_eq!(split_on_spaces("a "), vec!["a", ""]);
    let mut db = Database::new();
    assert_eq!(respond(&mut db, "GET  k"), "Key does not exist\n");
}

#[test]
fn rendering_and_text_helpers() {
    let v = vec![("a".to_string(), "1".to_string()), ("b".to_string(), "2".to_string())];
    assert_eq!(render_pairs(&v), "a = 1\nb = 2\n");
    assert!(same_text("héllo", "héllo"));
    assert!(!same_text("abc", "abd"));
    assert!(!same_text("ab", "abc"));
    assert!(starts_with_text("abc", "ab"));
    assert!(!starts_with_text("ab", "abc"));
    assert!(ends_with_text("abc", "bc"));
    assert!(!ends_with_text("abc", "ab"));
    assert!(ends_with_text("abc", ""));
}

#[test]
fn response_from_string_parses() {
    match Response::from("SET k v 3".to_string()) {
        Response::Command(m, k, v, t) => {
            assert_eq!((m.as_str(), k.as_str(), v.as_deref(), t), ("SET", "k", Some("v"), Some(3)));
        }
        other => panic!("unexpected {:?}", other),
    }
    assert!(matches!(Response::from("SET onlykey".to_string()), Response::Error(e) if e == "missing value"));
}
