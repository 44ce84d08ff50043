//! The wire encodings, byte for byte, and the field-section parser.

use metricus::encoder::{
    encode_counter_line, encode_histogram_line, encode_json_counter_line, fmt_u64,
    parse_counter_fields, HistogramStats,
};

fn owned_tags(tags: &[(&str, &str)]) -> Vec<(String, String)> {
    tags.iter().map(|t| (t.0.to_owned(), t.1.to_owned())).collect()
}

#[test]
fn counter_line_exact_bytes() {
    let mut buf: Vec<u8> = Vec::new();
    encode_counter_line(
        "requests",
        &owned_tags(&[("env", "prod")]),
        42,
        1234567890,
        &mut buf,
    );
    assert_eq!(
        String::from_utf8(buf).unwrap(),
        "requests,env=prod value=42u 1234567890\n"
    );
}

#[test]
fn counter_line_without_tags() {
    let mut buf: Vec<u8> = Vec::new();
    encode_counter_line("hits", &Vec::new(), 0, 7, &mut buf);
    assert_eq!(String::from_utf8(buf).unwrap(), "hits value=0u 7\n");
}

#[test]
fn counter_line_many_tags_keeps_order() {
    let mut buf: Vec<u8> = Vec::new();
    encode_counter_line(
        "m",
        &owned_tags(&[("a", "1"), ("b", "2"), ("c", "3")]),
        5,
        9,
        &mut buf,
    );
    assert_eq!(String::from_utf8(buf).unwrap(), "m,a=1,b=2,c=3 value=5u 9\n");
}

#[test]
fn fmt_u64_digits() {
    let mut buf: Vec<u8> = Vec::new();
    fmt_u64(0, &mut buf);
    buf.push(b' ');
    fmt_u64(1234567890, &mut buf);
    buf.push(b' ');
    fmt_u64(u64::MAX, &mut buf);
    assert_eq!(
        String::from_utf8(buf).unwrap(),
        "0 1234567890 18446744073709551615"
    );
}

#[test]
fn histogram_line_fixed_field_order() {
    let stats = HistogramStats {
        count: 3,
        min: 5,
        max: 90,
        mean_text: "31.5".to_owned(),
        p50: 10,
        p75: 50,
        p90: 90,
        p95: 90,
        p99: 90,
        p999: 90,
        p9999: 90,
    };
    let mut buf: Vec<u8> = Vec::new();
    encode_histogram_line(
        "latency",
        &owned_tags(&[("type", "histogram")]),
        &stats,
        777,
        &mut buf,
    );
    assert_eq!(
        String::from_utf8(buf).unwrap(),
        "latency,type=histogram count=3u,min=5u,max=90u,mean=31.5f,p50=10u,p75=50u,p90=90u,p95=90u,p99=90u,p999=90u,p9999=90u 777\n"
    );
}

#[test]
fn json_counter_line_exact_bytes() {
    let mut buf: Vec<u8> = Vec::new();
    encode_json_counter_line(
        "requests",
        &owned_tags(&[("env", "prod")]),
        42,
        123,
        &mut buf,
    );
    assert_eq!(
        String::from_utf8(buf).unwrap(),
        "{\"timestamp\":123,\"value\":42,\"name\":\"requests\",\"tags\":{\"env\":\"prod\"}}\n"
    );
}

#[test]
fn json_counter_line_is_valid_json() {
    let mut buf: Vec<u8> = Vec::new();
    encode_json_counter_line(
        "odd \"name\" with \\ and \n control",
        &owned_tags(&[("k\t1", "v\u{1}2")]),
        7,
        9,
        &mut buf,
    );
    let text = String::from_utf8(buf).unwrap();
    let parsed: serde_json::Value = serde_json::from_str(text.trim_end()).unwrap();
    assert_eq!(parsed["timestamp"], serde_json::Value::from(9u64));
    assert_eq!(parsed["value"], serde_json::Value::from(7u64));
    assert_eq!(
        parsed["name"],
        serde_json::Value::from("odd \"name\" with \\ and \n control")
    );
    assert_eq!(parsed["tags"]["k\t1"], serde_json::Value::from("v\u{1}2"));
}

#[test]
fn parse_recovers_value_and_timestamp() {
    let mut buf: Vec<u8> = Vec::new();
    encode_counter_line(
        "requests",
        &owned_tags(&[("env", "prod")]),
        42,
        1234567890,
        &mut buf,
    );
    assert_eq!(parse_counter_fields(&buf), Some((42, 1234567890)));
}

#[test]
fn parse_recovers_extreme_values() {
    let mut buf: Vec<u8> = Vec::new();
    encode_counter_line("m", &Vec::new(), u64::MAX, 0, &mut buf);
    assert_eq!(parse_counter_fields(&buf), Some((u64::MAX, 0)));
}

#[test]
fn parse_rejects_garbage() {
    assert_eq!(parse_counter_fields(&b"no fields here".to_vec()), None);
    assert_eq!(parse_counter_fields(&b"".to_vec()), None);
    assert_eq!(parse_counter_fields(&b"m value=u 5\n".to_vec()), None);
    assert_eq!(parse_counter_fields(&b"m value=5 5\n".to_vec()), None);
    assert_eq!(parse_counter_fields(&b"m value=5u 5".to_vec()), None);
}

#[test]
fn parse_rejects_overflowing_value() {
    let line = b"m value=99999999999999999999u 5\n".to_vec();
    assert_eq!(parse_counter_fields(&line), None);
}
