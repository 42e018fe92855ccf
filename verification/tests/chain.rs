use linewatch::chain::{
    compute_hash, get_hash, get_seq, hash_text, line_fits, line_hash, line_seq, replace_chain, set_hash, verify_chain,
    ChainStatus, Record, RecordChain,
};
use linewatch::json::{canonical_json, put_field, Json};

fn text(s: &str) -> Json {
    Json::Text(s.to_owned())
}

fn object(fields: Vec<(&str, Json)>) -> Json {
    Json::Object(fields.into_iter().map(|(k, v)| (k.to_owned(), v)).collect())
}

fn restart() -> Json {
    object(vec![("type", text("monitor_restart"))])
}

fn set(line: &mut Json, key: &str, value: Json) {
    if let Json::Object(fields) = line {
        put_field(fields, key, value);
    }
}

/// Helper: make a record a log line.
fn make_record(seq: u64, prev_hash: &str, body: Json) -> Json {
    let mut v = body;
    set(&mut v, "seq", Json::Uint(seq));
    set(&mut v, "prev_hash", text(prev_hash));
    let hash = compute_hash(&v, prev_hash);
    set(&mut v, "hash", text(&hash));
    v
}

fn own_hash(line: &Json) -> String {
    line.get_text("hash").unwrap().clone()
}

#[test]
fn chain_three_records_intact() {
    let h0 = "";
    let r0 = make_record(0, h0, restart());
    let h1 = own_hash(&r0);
    let r1 = make_record(1, &h1, restart());
    let h2 = own_hash(&r1);
    let r2 = make_record(2, &h2, restart());

    let lines = vec![r0, r1, r2];
    let status = verify_chain(&lines);
    assert!(status.intact, "chain should be intact");
    assert_eq!(status.break_at, None);
}

#[test]
fn tampered_hash_detected() {
    let h0 = "";
    let mut r0 = make_record(0, h0, restart());
    let h1 = own_hash(&r0);
    let r1 = make_record(1, &h1, restart());

    // Tamper with record 0's hash.
    set(&mut r0, "hash", text("deadbeef"));

    let lines = vec![r0, r1];
    let status = verify_chain(&lines);
    assert!(!status.intact, "tampered chain should be broken");
    assert_eq!(status.break_at, Some(0));
}

#[test]
fn tampered_prev_hash_detected() {
    let h0 = "";
    let r0 = make_record(0, h0, restart());
    let h1 = own_hash(&r0);
    let mut r1 = make_record(1, &h1, restart());

    // Tamper with record 1's prev_hash.
    set(&mut r1, "prev_hash", text("0000"));

    let lines = vec![r0, r1];
    let status = verify_chain(&lines);
    assert!(!status.intact);
    assert_eq!(status.break_at, Some(1));
}

#[test]
fn tampered_field_in_middle_detected() {
    let h0 = "";
    let r0 = make_record(0, h0, restart());
    let h1 = own_hash(&r0);
    let r1 = make_record(1, &h1, restart());
    let h2 = own_hash(&r1);
    let r2 = make_record(2, &h2, restart());

    let mut lines = vec![r0, r1, r2];
    // Tamper with record 1's seq.
    set(&mut lines[1], "seq", Json::Uint(99));

    let status = verify_chain(&lines);
    assert!(!status.intact);
    // The break is at seq=99 (the tampered record).
    assert_eq!(status.break_at, Some(99));
}

fn sample_document(hash: &str) -> Json {
    object(vec![
        ("type", text("sample")),
        ("seq", Json::Uint(0)),
        ("prev_hash", text("")),
        ("hash", text(hash)),
        ("ts", text("2026-07-05T12:00:00Z")),
        ("temp_c", Json::Number("22.5".to_owned())),
        (
            "outcomes",
            Json::Array(vec![object(vec![
                ("kind", text("Http")),
                ("reachable", Json::Bool(true)),
                (
                    "rtt",
                    object(vec![("secs", Json::Uint(0)), ("nanos", Json::Uint(42_000_000))]),
                ),
                ("loss_pct", Json::Uint(0)),
            ])]),
        ),
    ])
}

#[test]
fn sample_record_roundtrip_and_verify() {
    // Compute and set the hash.
    let hash = compute_hash(&sample_document(""), "");
    let v = sample_document(&hash);
    // The document must contain the computed hash.
    assert_eq!(v.get_text("hash"), Some(&hash));

    let lines = vec![v];
    let status = verify_chain(&lines);
    assert!(status.intact);
}

// -- Exact values -----------------------------------------------------------

#[test]
fn hash_has_an_exact_value() {
    let body = object(vec![
        ("type", text("monitor_restart")),
        ("seq", Json::Uint(0)),
        ("prev_hash", text("")),
    ]);
    let h0 = compute_hash(&body, "");
    assert_eq!(h0, "fbd7b816ac50179ce0853175f4db9e258ede9422868182d16e005aae0452560d");
    let next = object(vec![
        ("type", text("monitor_restart")),
        ("seq", Json::Uint(1)),
        ("prev_hash", text(&h0)),
        ("hash", text("not part of the hash")),
    ]);
    assert_eq!(compute_hash(&next, &h0), "ceb27bf1a3c7a1cfe0ae6db153bce0e591158b420b33c0f05124c1565227f266");
}

#[test]
fn hash_of_nested_document_has_an_exact_value() {
    let body = object(vec![
        (
            "b",
            object(vec![
                ("z", Json::Uint(1)),
                (
                    "a",
                    Json::Array(vec![
                        Json::Bool(true),
                        Json::Null,
                        Json::Number("-2".to_owned()),
                        Json::Number("1.5".to_owned()),
                    ]),
                ),
            ]),
        ),
        ("a", text("x\n")),
    ]);
    assert_eq!(compute_hash(&body, "ff"), "07c17d87587956abcbb790c9431750d53545289b721b45689d5036b8cede926a");
}

#[test]
fn hash_ignores_field_order() {
    let inner = |swap: bool| {
        let mut f = vec![("x", Json::Uint(1)), ("y", Json::Null)];
        if swap {
            f.reverse();
        }
        object(f)
    };
    let a = object(vec![("one", inner(false)), ("two", Json::Array(vec![inner(true)]))]);
    let b = object(vec![("two", Json::Array(vec![inner(false)])), ("one", inner(true))]);
    assert_eq!(compute_hash(&a, "p"), compute_hash(&b, "p"));
    assert_ne!(compute_hash(&a, "p"), compute_hash(&a, "q"));
}

#[test]
fn canonical_form_sorts_keys_at_all_depths() {
    let doc = object(vec![
        ("b", object(vec![("d", Json::Null), ("c", Json::Uint(7))])),
        ("a", Json::Array(vec![object(vec![("z", Json::Null), ("y", Json::Null)])])),
        ("b2", Json::Null),
        ("B", Json::Null),
    ]);
    let Json::Object(fields) = canonical_json(&doc) else {
        panic!("an object stays an object");
    };
    let keys: Vec<&str> = fields.iter().map(|(k, _)| k.as_str()).collect();
    assert_eq!(keys, vec!["B", "a", "b", "b2"]);
    let Json::Object(inner) = &fields[2].1 else {
        panic!("an object stays an object");
    };
    assert_eq!(inner[0].0, "c");
    assert_eq!(inner[1].0, "d");
}

// -- Breaks -----------------------------------------------------------------

fn three_lines() -> Vec<Json> {
    let r0 = make_record(5, "", restart());
    let r1 = make_record(6, &own_hash(&r0), restart());
    let r2 = make_record(7, &own_hash(&r1), restart());
    vec![r0, r1, r2]
}

#[test]
fn empty_log_is_intact() {
    assert_eq!(
        verify_chain(&[]),
        ChainStatus {
            intact: true,
            break_at: None
        }
    );
}

#[test]
fn missing_line_breaks_the_chain_after_it() {
    let mut lines = three_lines();
    lines.remove(1);
    let status = verify_chain(&lines);
    assert_eq!(
        status,
        ChainStatus {
            intact: false,
            break_at: Some(7)
        }
    );
}

#[test]
fn missing_first_line_breaks_the_chain_at_the_second() {
    let mut lines = three_lines();
    lines.remove(0);
    let status = verify_chain(&lines);
    assert_eq!(
        status,
        ChainStatus {
            intact: false,
            break_at: Some(6)
        }
    );
}

#[test]
fn missing_last_line_is_not_noticed() {
    let mut lines = three_lines();
    lines.pop();
    assert!(verify_chain(&lines).intact);
}

#[test]
fn resealed_line_breaks_the_chain_after_it() {
    let mut lines = three_lines();
    let prev = own_hash(&lines[0]);
    lines[1] = make_record(6, &prev, object(vec![("type", text("other"))]));
    let status = verify_chain(&lines);
    assert_eq!(status.break_at, Some(7));
}

#[test]
fn line_without_chain_fields_breaks_at_zero() {
    let status = verify_chain(&[restart()]);
    assert_eq!(status.break_at, Some(0));
    assert_eq!(verify_chain(&[Json::Null]).break_at, Some(0));
}

#[test]
fn later_key_counts() {
    let doc = object(vec![("seq", Json::Uint(1)), ("hash", Json::Null), ("seq", Json::Uint(2))]);
    assert_eq!(line_seq(&doc), 2);
    assert_eq!(line_hash(&doc), "");
}

// -- Placing a record ---------------------------------------------------------

#[test]
fn chain_fields_are_set_in_place() {
    let Json::Object(mut fields) = object(vec![
        ("type", text("sample")),
        ("seq", Json::Uint(0)),
        ("prev_hash", text("")),
        ("hash", text("")),
        ("ts", text("now")),
    ]) else {
        panic!("an object");
    };
    replace_chain(&mut fields, 12, "abc");
    set_hash(&mut fields, "def");
    let keys: Vec<&str> = fields.iter().map(|(k, _)| k.as_str()).collect();
    assert_eq!(keys, vec!["type", "seq", "prev_hash", "hash", "ts"]);
    let doc = Json::Object(fields);
    assert_eq!(doc.get_uint("seq"), Some(12));
    assert_eq!(doc.get_text("prev_hash").unwrap(), "abc");
    assert_eq!(line_hash(&doc), "def");
    assert_eq!(doc.get_text("ts").unwrap(), "now");
}

#[test]
fn record_gives_its_chain_fields() {
    let r = Record::MonitorRestart {
        chain: RecordChain {
            seq: 42,
            prev_hash: "p".to_owned(),
            hash: "h".to_owned(),
        },
    };
    assert_eq!(get_seq(&r), 42);
    assert_eq!(get_hash(&r), "h");
}

// -- The parts of verification -------------------------------------------------

#[test]
fn hash_of_texts_is_the_digest_of_their_bytes() {
    assert_eq!(
        hash_text("", ""),
        "e3b0c44298fc1c149afbf4c8996fb92427ae41e4649b934ca495991b7852b855"
    );
    assert_eq!(
        hash_text("a", "bc"),
        "ba7816bf8f01cfea414140de5dae2223b00361a396177a9cb410ff61f20015ad"
    );
    assert_eq!(hash_text("ab", "c"), hash_text("a", "bc"));
}

#[test]
fn line_fits_by_both_hashes() {
    let before = object(vec![("hash", text("p"))]);
    let line = object(vec![("prev_hash", text("p")), ("hash", text("h"))]);
    assert!(line_fits(&line, Some(&before), "h"));
    assert!(!line_fits(&line, Some(&before), "x"));
    assert!(!line_fits(&line, Some(&line), "h"));
    assert!(!line_fits(&line, None, "h"));
    let first = object(vec![("prev_hash", text("")), ("hash", text("h"))]);
    assert!(line_fits(&first, None, "h"));
    assert!(line_fits(&object(vec![("hash", text("h"))]), None, "h"));
}
