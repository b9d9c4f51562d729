use quickwit_logging::LogRecord;
use quickwit_logging::LogValue;
use quickwit_logging::LogVisitor;
use quickwit_logging::ingest_endpoint;
use quickwit_logging::serialize;

fn line_of(log: &LogRecord) -> String {
    let mut out = String::new();
    serialize(&mut out, log);
    out
}

#[test]
fn empty_record_serializes_to_empty_object() {
    let log = LogRecord::new();
    assert_eq!(line_of(&log), "{}\n");
}

#[test]
fn fields_keep_arrival_order() {
    let mut v = LogVisitor::new();
    v.record_str("b", "two");
    v.record_u64("a", 1);
    v.record_str("c", "three");
    assert_eq!(line_of(&v.log), "{\"b\":\"two\",\"a\":1,\"c\":\"three\"}\n");
}

#[test]
fn recording_a_name_again_replaces_its_value() {
    let mut v = LogVisitor::new();
    v.record_str("k", "first");
    v.record_u64("other", 9);
    v.record_str("k", "second");
    assert_eq!(line_of(&v.log), "{\"k\":\"second\",\"other\":9}\n");
}

#[test]
fn u64_values_are_exact_decimals() {
    let mut v = LogVisitor::new();
    v.record_u64("zero", 0);
    v.record_u64("max", u64::MAX);
    assert_eq!(line_of(&v.log), "{\"zero\":0,\"max\":18446744073709551615}\n");
}

#[test]
fn u128_values_wrap_to_the_low_64_bits() {
    let mut v = LogVisitor::new();
    v.record_u128("small", 77);
    v.record_u128("wrapped", (1u128 << 64) + 5);
    assert_eq!(line_of(&v.log), "{\"small\":77,\"wrapped\":5}\n");
}

#[test]
fn debug_formatted_values_become_strings() {
    let mut v = LogVisitor::new();
    v.record_debug("metric1", "2145.43");
    assert_eq!(line_of(&v.log), "{\"metric1\":\"2145.43\"}\n");
}

#[test]
fn string_values_are_json_escaped() {
    let mut v = LogVisitor::new();
    v.record_str("m", "a\"b\\c\nd\te\rf");
    assert_eq!(
        line_of(&v.log),
        "{\"m\":\"a\\\"b\\\\c\\nd\\te\\rf\"}\n"
    );
}

#[test]
fn control_characters_get_unicode_escapes() {
    let mut v = LogVisitor::new();
    v.record_str("m", "\u{1}\u{8}\u{c}\u{1f}");
    assert_eq!(line_of(&v.log), "{\"m\":\"\\u0001\\b\\f\\u001f\"}\n");
}

#[test]
fn serialized_lines_parse_back_as_json() {
    let mut v = LogVisitor::new();
    v.record_str("task", "build");
    v.record_u64("x", 1);
    v.record_str("quote", "say \"hi\"");
    let line = line_of(&v.log);
    let parsed: serde_json::Value =
        serde_json::from_str(line.trim_end()).expect("the encoder must emit valid JSON");
    assert_eq!(parsed.get("task").and_then(|x| x.as_str()), Some("build"));
    assert_eq!(parsed.get("x").and_then(|x| x.as_u64()), Some(1));
    assert_eq!(
        parsed.get("quote").and_then(|x| x.as_str()),
        Some("say \"hi\"")
    );
}

#[test]
fn record_lookup_finds_values_by_name() {
    let mut log = LogRecord::new();
    log.insert(String::from("k"), LogValue::Unsigned(3));
    log.insert(String::from("s"), LogValue::Text(String::from("v")));
    assert_eq!(log.len(), 2);
    match log.get(&String::from("k")) {
        Some(LogValue::Unsigned(n)) => assert_eq!(*n, 3),
        _ => panic!("expected the numeric field"),
    }
    match log.get(&String::from("s")) {
        Some(LogValue::Text(s)) => assert_eq!(s, "v"),
        _ => panic!("expected the text field"),
    }
    assert!(log.get(&String::from("absent")).is_none());
}

#[test]
fn endpoint_joins_base_and_index() {
    assert_eq!(
        ingest_endpoint(&String::from("http://127.0.0.1:9011"), &String::from("idx")),
        "http://127.0.0.1:9011/api/v1/idx/ingest"
    );
    assert_eq!(
        ingest_endpoint(&String::from("http://127.0.0.1:9011/"), &String::from("idx")),
        "http://127.0.0.1:9011/api/v1/idx/ingest"
    );
}
