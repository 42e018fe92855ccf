use linewatch::chain::verify_chain;
use linewatch::json::Json;
use linewatch::store::{read_last_line, read_log, read_record, restart_record, StoreWriter};

/// A log in memory, written the way the daemon writes its file.
struct Log {
    contents: String,
    end: StoreWriter,
}

impl Log {
    fn open(contents: &str) -> Log {
        let started = StoreWriter::start(contents).unwrap();
        Log {
            contents: format!("{contents}{}\n", started.line),
            end: started.next,
        }
    }

    fn append(&mut self, record: Vec<(String, Json)>) {
        let done = self.end.append_record(record);
        self.contents.push_str(&done.line);
        self.contents.push('\n');
        self.end.after_write(done, true);
    }
}

#[test]
fn append_then_verify_intact() {
    let mut log = Log::open("");
    let initial_seq = log.end.seq();

    // Append a few monitor_restart records.
    for _ in 0..3 {
        log.append(restart_record());
    }

    assert_eq!(log.end.seq(), initial_seq + 3);

    // Read back and verify.
    let lines = read_log(&log.contents);
    assert_eq!(lines.len(), 4);
    let status = verify_chain(&lines);
    assert!(status.intact, "chain should be intact: {:?}", status);
}

#[test]
fn tamper_detected_on_reload() {
    let mut log = Log::open("");
    log.append(restart_record());

    // Tamper with the contents.
    let tampered = log.contents.replacen("monitor_restart", "xoinitor_restart", 1);

    // Read back and verify.
    let lines = read_log(&tampered);
    assert_eq!(lines.len(), 2, "expected exactly 2 lines in file");

    let status = verify_chain(&lines);
    assert!(!status.intact, "tampered chain should break");
    assert_eq!(status.break_at, Some(0));
}

#[test]
fn first_line_has_an_exact_text() {
    let log = Log::open("");
    assert_eq!(
        log.contents,
        "{\"type\":\"monitor_restart\",\"seq\":0,\"prev_hash\":\"\",\"hash\":\"fbd7b816ac50179ce0853175f4db9e258ede9422868182d16e005aae0452560d\"}\n"
    );
}

#[test]
fn reopened_log_goes_on_where_it_ended() {
    let first = Log::open("");
    let second = Log::open(&first.contents);
    assert_eq!(second.end.seq(), 2);
    let third = Log::open(&second.contents);
    let lines = read_log(&third.contents);
    assert_eq!(lines.len(), 3);
    assert_eq!(lines[2].get_uint("seq"), Some(2));
    assert_eq!(lines[2].get_text("prev_hash"), lines[1].get_text("hash"));
    assert!(verify_chain(&lines).intact);
}

#[test]
fn written_fields_are_read_back() {
    let mut log = Log::open("");
    let fields = vec![
        ("type".to_owned(), Json::Text("sample".to_owned())),
        ("note".to_owned(), Json::Text("two\nlines \"quoted\" \u{e9}".to_owned())),
        ("temp_c".to_owned(), Json::Number("-0.25".to_owned())),
        ("big".to_owned(), Json::Uint(u64::MAX)),
        (
            "list".to_owned(),
            Json::Array(vec![Json::Null, Json::Bool(false), Json::Object(vec![])]),
        ),
    ];
    log.append(fields);
    let lines = read_log(&log.contents);
    assert_eq!(lines.len(), 2);
    assert_eq!(lines[1].get_text("note").unwrap(), "two\nlines \"quoted\" \u{e9}");
    assert_eq!(lines[1].get_uint("big"), Some(u64::MAX));
    assert!(matches!(lines[1].get("temp_c"), Some(Json::Number(n)) if n == "-0.25"));
    assert!(matches!(lines[1].get("list"), Some(Json::Array(a)) if a.len() == 3));
    assert!(verify_chain(&lines).intact);
}

#[test]
fn blank_and_unreadable_lines_are_skipped() {
    let log = Log::open("");
    let contents = format!("\n   \nnot json\r\n{}\n{{\"seq\":", log.contents);
    assert_eq!(read_log(&contents).len(), 1);
    assert_eq!(StoreWriter::open(&contents).unwrap().seq(), 1);
}

#[test]
fn last_sequence_number_and_hash_are_found_apart() {
    let docs = read_log("{\"seq\":4,\"hash\":\"a\"}\n{\"hash\":\"b\"}\n{\"seq\":9}\n[1]\n");
    assert_eq!(docs.len(), 4);
    assert_eq!(read_last_line(&docs), Some((10, "b".to_owned())));
}

#[test]
fn log_without_sequence_numbers_starts_over() {
    let docs = read_log("{\"hash\":\"b\"}\n{\"seq\":-1}\n{\"seq\":\"3\"}\n");
    assert_eq!(docs.len(), 3);
    assert_eq!(read_last_line(&docs), Some((0, String::new())));
}

#[test]
fn nothing_follows_the_largest_sequence_number() {
    assert!(StoreWriter::open("{\"seq\":18446744073709551615}").is_none());
    assert!(StoreWriter::open("{\"seq\":18446744073709551614}").is_some());
}

#[test]
fn record_given_as_text_is_sealed() {
    let mut log = Log::open("");
    let text = "{\"type\":\"sample\",\"seq\":77,\"prev_hash\":\"x\",\"hash\":\"y\",\"temp_c\":21.5}";
    let done = log.end.append_text(text).unwrap();
    log.contents.push_str(&done.line);
    log.contents.push('\n');
    log.end.after_write(done, true);
    let lines = read_log(&log.contents);
    assert_eq!(lines[1].get_uint("seq"), Some(1));
    assert_eq!(lines[1].get_text("prev_hash"), lines[0].get_text("hash"));
    assert!(matches!(lines[1].get("temp_c"), Some(Json::Number(n)) if n == "21.5"));
    assert!(verify_chain(&lines).intact);
    assert_eq!(log.end.seq(), 2);
}

#[test]
fn chain_values_of_a_record_are_not_used() {
    let end = StoreWriter::open("").unwrap();
    let line = |seq: u64, prev: &str, hash: &str| {
        let text = format!(
            "{{\"type\":\"x\",\"seq\":{seq},\"prev_hash\":\"{prev}\",\"hash\":\"{hash}\",\"a\":1}}"
        );
        end.append_text(&text).unwrap().line
    };
    assert_eq!(line(0, "", ""), line(9, "p", "h"));
}

#[test]
fn only_an_object_is_a_record() {
    let end = StoreWriter::open("").unwrap();
    assert!(end.append_text("[1]").is_none());
    assert!(end.append_text("{\"a\":").is_none());
    assert!(end.append_text("{}").is_some());
    assert!(read_record("7").is_none());
}

#[test]
fn marked_object_is_read_as_what_it_stands_for() {
    let text = "{\"$serde_json::private::RawValue\":\"{\\\"a\\\":5}\"}";
    let fields = read_record(text).unwrap();
    assert_eq!(fields.len(), 1);
    assert_eq!(fields[0].0, "a");
}

#[test]
fn line_that_was_not_written_changes_nothing() {
    let mut end = StoreWriter::open("").unwrap();
    let done = end.append_record(restart_record());
    end.after_write(done, false);
    assert_eq!(end.seq(), 0);
    assert_eq!(end.prev_hash, "");
    let done = end.append_record(restart_record());
    let hash = done.next.prev_hash.clone();
    end.after_write(done, true);
    assert_eq!(end.seq(), 1);
    assert_eq!(end.prev_hash, hash);
}

#[test]
fn white_space_of_every_kind_makes_a_blank_line() {
    assert!(read_log("\u{85}\u{a0}\u{1680}\u{2000}\u{200a}\u{2028}\u{202f}\u{205f}\u{3000} \t\u{b}\u{c}").is_empty());
    assert_eq!(read_log("1").len(), 1);
}

#[test]
fn nesting_has_a_limit() {
    let nested = |n: usize| format!("{}{}", "[".repeat(n), "]".repeat(n));
    assert_eq!(read_log(&nested(127)).len(), 1);
    assert_eq!(read_log(&nested(128)).len(), 0);
    assert!(read_log(&nested(127))[0].is_nested_within(127));
    assert!(!read_log(&nested(127))[0].is_nested_within(126));
}

#[test]
fn every_start_leaves_a_marker() {
    let mut contents = String::new();
    for seq in 0..3 {
        let started = StoreWriter::start(&contents).unwrap();
        contents.push_str(&started.line);
        contents.push('\n');
        assert_eq!(started.next.seq(), seq + 1);
        assert_eq!(StoreWriter::open(&contents).unwrap().prev_hash, started.next.prev_hash);
    }
    let lines = read_log(&contents);
    assert_eq!(lines.len(), 3);
    assert!(lines.iter().all(|l| l.get_text("type").unwrap() == "monitor_restart"));
    assert!(verify_chain(&lines).intact);
}

#[test]
fn no_start_without_a_sequence_number() {
    assert!(StoreWriter::start("{\"seq\":18446744073709551615}").is_none());
    assert!(StoreWriter::start("{\"seq\":18446744073709551614}").is_none());
    assert!(StoreWriter::start("{\"seq\":18446744073709551613}").is_some());
}
