use mcping::error::PingError;
use mcping::status::{decode_status, player_names};

fn names(list: &[&str]) -> Vec<String> {
    list.iter().map(|name| name.to_string()).collect()
}

#[test]
fn decoder_yields_the_sample_in_order() {
    let json = br#"{"players":{"sample":[{"name":"Alice"},{"name":"Bob"}]}}"#;
    assert_eq!(decode_status(json), Ok(names(&["Alice", "Bob"])));
}

#[test]
fn decoder_without_a_sample_yields_nobody() {
    assert_eq!(decode_status(br#"{"players":{}}"#), Ok(Vec::new()));
}

#[test]
fn decoder_rejects_text_that_is_no_json() {
    assert_eq!(decode_status(b"not json"), Err(PingError::PayloadError));
    assert_eq!(decode_status(b""), Err(PingError::PayloadError));
    assert_eq!(
        decode_status(br#"{"players":{"sample":["#),
        Err(PingError::PayloadError)
    );
}

#[test]
fn decoder_rejects_bytes_that_are_no_utf8() {
    assert_eq!(
        decode_status(&[b'{', b'"', 0xFF, 0xFE, b'"', b':', b'1', b'}']),
        Err(PingError::PayloadError)
    );
}

#[test]
fn decoder_with_a_null_sample_yields_nobody() {
    assert_eq!(
        decode_status(br#"{"players":{"sample":null}}"#),
        Ok(Vec::new())
    );
}

#[test]
fn decoder_with_an_empty_sample_yields_nobody() {
    assert_eq!(
        decode_status(br#"{"players":{"sample":[]}}"#),
        Ok(Vec::new())
    );
}

#[test]
fn decoder_keeps_duplicates() {
    let json = br#"{"players":{"sample":[{"name":"Bob"},{"name":"Alice"},{"name":"Bob"}]}}"#;
    assert_eq!(decode_status(json), Ok(names(&["Bob", "Alice", "Bob"])));
}

#[test]
fn decoder_ignores_the_other_fields() {
    let json = br#"{
        "version": {"name": "1.21", "protocol": 767},
        "description": {"text": "A server"},
        "players": {
            "max": 20,
            "online": 2,
            "sample": [
                {"name": "Alice", "id": "4566e69f-c907-48ee-8d71-d7ba5aa00d20"},
                {"id": "00000000-0000-0000-0000-000000000000", "name": "Bob"}
            ]
        },
        "favicon": "data:image/png;base64,"
    }"#;
    assert_eq!(decode_status(json), Ok(names(&["Alice", "Bob"])));
}

#[test]
fn decoder_reads_escapes_in_names() {
    let json = r#"{"players":{"sample":[{"name":"Aé\"b"},{"name":"Zoé"}]}}"#;
    assert_eq!(
        decode_status(json.as_bytes()),
        Ok(names(&["A\u{e9}\"b", "Zo\u{e9}"]))
    );
}

#[test]
fn decoder_rejects_a_document_without_players() {
    assert_eq!(decode_status(b"{}"), Err(PingError::PayloadError));
    assert_eq!(
        decode_status(br#"{"description":"x"}"#),
        Err(PingError::PayloadError)
    );
}

#[test]
fn decoder_rejects_a_document_that_is_no_object() {
    assert_eq!(decode_status(b"[]"), Err(PingError::PayloadError));
    assert_eq!(decode_status(b"null"), Err(PingError::PayloadError));
    assert_eq!(decode_status(b"\"players\""), Err(PingError::PayloadError));
    assert_eq!(decode_status(b"17"), Err(PingError::PayloadError));
}

#[test]
fn decoder_rejects_players_that_are_no_object() {
    assert_eq!(
        decode_status(br#"{"players":null}"#),
        Err(PingError::PayloadError)
    );
    assert_eq!(
        decode_status(br#"{"players":[]}"#),
        Err(PingError::PayloadError)
    );
    assert_eq!(
        decode_status(br#"{"players":"many"}"#),
        Err(PingError::PayloadError)
    );
    assert_eq!(
        decode_status(br#"{"players":3}"#),
        Err(PingError::PayloadError)
    );
}

#[test]
fn decoder_rejects_a_sample_that_is_no_array() {
    assert_eq!(
        decode_status(br#"{"players":{"sample":{"name":"Alice"}}}"#),
        Err(PingError::PayloadError)
    );
    assert_eq!(
        decode_status(br#"{"players":{"sample":"Alice"}}"#),
        Err(PingError::PayloadError)
    );
}

#[test]
fn decoder_rejects_an_entry_without_a_name() {
    assert_eq!(
        decode_status(br#"{"players":{"sample":[{"name":"Alice"},{"id":"x"}]}}"#),
        Err(PingError::PayloadError)
    );
    assert_eq!(
        decode_status(br#"{"players":{"sample":[{"name":"Alice"},"Bob"]}}"#),
        Err(PingError::PayloadError)
    );
}

#[test]
fn decoder_rejects_a_name_that_is_no_string() {
    assert_eq!(
        decode_status(br#"{"players":{"sample":[{"name":7}]}}"#),
        Err(PingError::PayloadError)
    );
    assert_eq!(
        decode_status(br#"{"players":{"sample":[{"name":null}]}}"#),
        Err(PingError::PayloadError)
    );
}

#[test]
fn player_names_of_a_parsed_document() {
    let document: serde_json::Value =
        serde_json::from_str(r#"{"players":{"sample":[{"name":"Carol"},{"name":"Dave"}]}}"#)
            .unwrap();
    assert_eq!(player_names(&document), Ok(names(&["Carol", "Dave"])));
}

#[test]
fn player_names_of_a_document_without_a_sample() {
    let document: serde_json::Value = serde_json::from_str(r#"{"players":{"online":0}}"#).unwrap();
    assert_eq!(player_names(&document), Ok(Vec::new()));
}

#[test]
fn player_names_of_a_document_of_another_shape() {
    let document: serde_json::Value = serde_json::from_str(r#"[{"players":{}}]"#).unwrap();
    assert_eq!(player_names(&document), Err(PingError::PayloadError));
    let document: serde_json::Value =
        serde_json::from_str(r#"{"players":{"sample":[{"name":"A"},{}]}}"#).unwrap();
    assert_eq!(player_names(&document), Err(PingError::PayloadError));
}
