use graphql_service::decimal::render_decimal;
use graphql_service::json::{read_json, write_json};
use graphql_service::payload::{
    frame_next, frame_pending, frame_results, serialize_results, Payload,
};
use graphql_service::text::decode_utf16;
use serde_json::Value;

fn value(text: &str) -> Value {
    serde_json::from_str(text).unwrap()
}

#[test]
fn decimal_of_zero() {
    assert_eq!(render_decimal(0), "0");
}

#[test]
fn decimal_of_single_digits() {
    assert_eq!(render_decimal(1), "1");
    assert_eq!(render_decimal(9), "9");
    assert_eq!(render_decimal(-7), "-7");
}

#[test]
fn decimal_of_longer_numbers() {
    assert_eq!(render_decimal(10), "10");
    assert_eq!(render_decimal(12345), "12345");
    assert_eq!(render_decimal(-1000), "-1000");
    assert_eq!(render_decimal(1_000_000_007), "1000000007");
}

#[test]
fn decimal_of_the_limits() {
    assert_eq!(render_decimal(i32::MAX), "2147483647");
    assert_eq!(render_decimal(i32::MIN), "-2147483648");
}

#[test]
fn decimal_agrees_with_the_standard_formatting() {
    let mut n: i32 = -2_000_000_000;
    while n < 2_000_000_000 {
        assert_eq!(render_decimal(n), n.to_string());
        n += 99_999_989;
    }
}

#[test]
fn results_frame() {
    assert_eq!(frame_results("{\"a\":1}"), "{\"results\":{\"a\":1}}");
    assert_eq!(frame_results("null"), "{\"results\":null}");
}

#[test]
fn pending_frame() {
    assert_eq!(frame_pending(1), "{\"pending\":1}");
    assert_eq!(frame_pending(42), "{\"pending\":42}");
}

#[test]
fn next_frame() {
    assert_eq!(frame_next("{\"a\":1}", 1), "{\"next\":{\"a\":1},\"subscription\":1}");
    assert_eq!(frame_next("[]", 17), "{\"next\":[],\"subscription\":17}");
}

#[test]
fn written_text_is_compact() {
    let v = value("{ \"b\" : [ 1 , 2 ] ,\n \"a\" : \"x\" }");
    assert_eq!(write_json(&v), Some(serde_json::to_string(&v).unwrap()));
    assert_eq!(write_json(&value(" [ 1 , true , null ] ")), Some("[1,true,null]".to_string()));
    assert_eq!(write_json(&value("\"a\\u0062\"")), Some("\"ab\"".to_string()));
}

#[test]
fn read_json_reads_a_value() {
    assert_eq!(read_json("{\"a\":1}"), Some(value("{\"a\":1}")));
    assert_eq!(read_json(" 12 "), Some(Value::from(12)));
    assert_eq!(read_json("null"), Some(Value::Null));
}

#[test]
fn read_json_rejects_what_is_no_json() {
    assert_eq!(read_json(""), None);
    assert_eq!(read_json("{\"a\":"), None);
    assert_eq!(read_json("{\"a\":1} trailing"), None);
    assert_eq!(read_json("undefined"), None);
}

#[test]
fn read_then_written_is_the_same_value() {
    let text = "{\"list\":[1,2.5,\"three\",null,true],\"nested\":{\"k\":\"v\"}}";
    let written = write_json(&read_json(text).unwrap()).unwrap();
    assert_eq!(read_json(&written), read_json(text));
}

#[test]
fn serialize_results_payload() {
    let payload = Payload::Results { results: value("{\"a\": 1}") };
    assert_eq!(serialize_results(&payload), Some("{\"results\":{\"a\":1}}".to_string()));
}

#[test]
fn serialize_pending_payload() {
    let payload = Payload::Pending { pending: 3 };
    assert_eq!(serialize_results(&payload), Some("{\"pending\":3}".to_string()));
}

#[test]
fn serialize_next_payload() {
    let payload = Payload::Next { next: value("{\"a\": 2}"), subscription: 5 };
    assert_eq!(
        serialize_results(&payload),
        Some("{\"next\":{\"a\":2},\"subscription\":5}".to_string())
    );
}

#[test]
fn serialized_payloads_are_json() {
    let payload = Payload::Next { next: value("{\"a\": [1, \"two\"]}"), subscription: 12 };
    let text = serialize_results(&payload).unwrap();
    let read: Value = serde_json::from_str(&text).unwrap();
    assert_eq!(read.get("subscription").and_then(|k| k.as_i64()), Some(12));
    assert_eq!(read.get("next"), Some(&value("{\"a\": [1, \"two\"]}")));
}

#[test]
fn decode_plain_text() {
    let units: Vec<u16> = "query { me }".encode_utf16().collect();
    assert_eq!(decode_utf16(&units), Some("query { me }".to_string()));
}

#[test]
fn decode_empty_text() {
    assert_eq!(decode_utf16(&[]), Some(String::new()));
}

#[test]
fn decode_surrogate_pair() {
    assert_eq!(decode_utf16(&[0xD83D, 0xDE00]), Some("\u{1F600}".to_string()));
}

#[test]
fn decode_rejects_a_lone_surrogate() {
    assert_eq!(decode_utf16(&[0x0041, 0xD800]), None);
    assert_eq!(decode_utf16(&[0xDC00, 0x0041]), None);
}
