use pg_amqp_bridge::payload::HeaderEntry;
use pg_amqp_bridge::payload::ParsedPayload;
use pg_amqp_bridge::payload::parse_notification;

fn plain(routing_key: &str, body: &str) -> ParsedPayload {
    ParsedPayload {
        routing_key: routing_key.to_string(),
        headers: None,
        body: body.to_string(),
    }
}

fn entry(name: &str, values: &[&str]) -> HeaderEntry {
    HeaderEntry {
        name: name.to_string(),
        values: values.iter().map(|v| v.to_string()).collect(),
    }
}

#[test]
fn parse_notification_works() {
    assert!(plain("my_key", "A message") == parse_notification("my_key|A message"));
    assert!(plain("my_key", "A message") == parse_notification("  my_key  |  A message  "));
    assert!(plain("", "my_key##A message") == parse_notification("my_key##A message"));
    assert!(plain("", "A message") == parse_notification("A message"));
    assert!(plain("", "") == parse_notification(""));
    assert!(plain("mý_kéý", "A mésságé") == parse_notification("mý_kéý|A mésságé"));
    let expected = ParsedPayload {
        routing_key: "my_key".to_string(),
        headers: Some(vec![
            entry(
                "Content-Type",
                &["application/json", "application/octet-stream"],
            ),
            entry("X-My-Header", &["my-value"]),
        ]),
        body: "A message".to_string(),
    };
    assert_eq!(
        expected,
        parse_notification(
            "my_key|Content-Type: application/json, application/octet-stream; X-My-Header: my-value|A message"
        )
    );
}

#[test]
fn parse_notification_trims_fields() {
    assert_eq!(
        plain("my_key", "A message"),
        parse_notification("  my_key  |  A message  ")
    );
}

#[test]
fn parse_notification_keeps_unicode() {
    assert_eq!(plain("mý_kéý", "A mésságé"), parse_notification("mý_kéý|A mésságé"));
}

#[test]
fn parse_notification_empty_payload() {
    assert_eq!(plain("", ""), parse_notification(""));
}

#[test]
fn parse_notification_no_separator_is_all_body() {
    assert_eq!(plain("", "just a body"), parse_notification("just a body"));
}

#[test]
fn parse_notification_round_trip_two_fields() {
    // With key and body free of '|', parsing "key|body" recovers both.
    assert_eq!(plain("k1", "m1"), parse_notification("k1|m1"));
    assert_eq!(plain("", "m1"), parse_notification("m1"));
}

#[test]
fn parse_notification_three_fields_reads_headers() {
    let got = parse_notification("key| A: 1 |body");
    assert_eq!(got.routing_key, "key");
    assert_eq!(got.body, "body");
    assert_eq!(got.headers, Some(vec![entry("A", &["1"])]));
}

#[test]
fn parse_notification_header_values_keep_order() {
    let got = parse_notification("k|H: b, a, c|m");
    assert_eq!(got.headers, Some(vec![entry("H", &["b", "a", "c"])]));
}

#[test]
fn parse_notification_header_entry_without_colon_is_skipped() {
    let got = parse_notification("k|no-colon-here; X: 1|m");
    assert_eq!(got.headers, Some(vec![entry("X", &["1"])]));
}

#[test]
fn parse_notification_three_fields_without_headers_yields_empty_map() {
    // The middle field is always read as headers; one with no ':' gives an
    // empty map, and the extra separator does not leak into the body.
    let got = parse_notification("my_key|A message|Rest of message");
    assert_eq!(got.routing_key, "my_key");
    assert_eq!(got.headers, Some(vec![]));
    assert_eq!(got.body, "Rest of message");
}

#[test]
fn parse_notification_fourth_separator_stays_in_body() {
    let got = parse_notification("k|H: 1|tail|with|bars");
    assert_eq!(got.headers, Some(vec![entry("H", &["1"])]));
    assert_eq!(got.body, "tail|with|bars");
}
