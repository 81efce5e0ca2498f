use icinga_filter::decode::{decode, DecodeError};
use icinga_filter::frame::encode_frame;
use icinga_filter::stream::{process_payload, process_stream};

fn bytes(s: &str) -> Vec<u8> {
    s.as_bytes().to_vec()
}

#[test]
fn end_to_end_example() {
    let payload = bytes(
        "{\"type\":\"Host\",\"name\":\"srv1\",\"properties\":{\"address\":\"10.0.0.1\",\"vars\":{\"role\":\"db\"},\"templates\":[\"generic-host\"]}}",
    );
    let framed = encode_frame(&payload);
    let (out, ok) = process_stream(&framed);
    assert!(ok);
    assert_eq!(
        out,
        "object Host {{{srv1}}} {\n  address = {{{10.0.0.1}}}\n  vars = { {{{role}}} = {{{db}}}; }\n}\n\n"
    );
}

#[test]
fn payload_block_is_not_the_input() {
    let payload = bytes("{\"type\":\"T\",\"name\":\"n\"}");
    let block = process_payload(&payload).unwrap();
    assert_eq!(block, "object T {{{n}}} {\n}\n\n");
    assert_ne!(block.as_bytes(), payload.as_slice());
}

#[test]
fn decode_extracts_the_record() {
    let payload = bytes("{\"type\":\"Host\",\"name\":\"h\",\"properties\":{\"a\":\"1\"}}");
    let o = decode(&payload).unwrap();
    assert_eq!(o.kind, "Host");
    assert_eq!(o.name, "h");
    assert_eq!(o.properties.len(), 1);
    assert_eq!(o.properties[0].0, "a");
}

#[test]
fn invalid_text_is_a_syntax_error() {
    assert_eq!(process_payload(&bytes("{not json")), Err(DecodeError::Syntax));
}

#[test]
fn missing_name_is_a_shape_error() {
    assert_eq!(process_payload(&bytes("{\"type\":\"T\"}")), Err(DecodeError::Shape));
}

#[test]
fn missing_type_is_a_shape_error() {
    assert_eq!(process_payload(&bytes("{\"name\":\"n\"}")), Err(DecodeError::Shape));
}

#[test]
fn nonstring_type_is_a_shape_error() {
    assert_eq!(
        process_payload(&bytes("{\"type\":3,\"name\":\"n\"}")),
        Err(DecodeError::Shape)
    );
}

#[test]
fn nonstring_name_is_a_shape_error() {
    assert_eq!(
        process_payload(&bytes("{\"type\":\"T\",\"name\":[]}")),
        Err(DecodeError::Shape)
    );
}

#[test]
fn nonmapping_properties_is_a_shape_error() {
    assert_eq!(
        process_payload(&bytes("{\"type\":\"T\",\"name\":\"n\",\"properties\":[1]}")),
        Err(DecodeError::Shape)
    );
}

#[test]
fn toplevel_array_is_a_shape_error() {
    assert_eq!(process_payload(&bytes("[1,2]")), Err(DecodeError::Shape));
}

#[test]
fn absent_properties_means_none_emitted() {
    let block = process_payload(&bytes("{\"type\":\"X\",\"name\":\"y\"}")).unwrap();
    assert_eq!(block, "object X {{{y}}} {\n}\n\n");
}

#[test]
fn scalars_keep_their_canonical_text() {
    let payload = bytes(
        "{\"type\":\"T\",\"name\":\"n\",\"properties\":{\"a\":1.5,\"b\":true,\"c\":null,\"d\":[1,2]}}",
    );
    let block = process_payload(&payload).unwrap();
    assert_eq!(
        block,
        "object T {{{n}}} {\n  a = 1.5\n  b = true\n  c = null\n  d = [ 1, 2, ]\n}\n\n"
    );
}

#[test]
fn stream_of_two_objects() {
    let first = encode_frame(&bytes("{\"type\":\"A\",\"name\":\"x\"}"));
    let second = encode_frame(&bytes("{\"type\":\"B\",\"name\":\"y\"}"));
    let mut input = first.clone();
    input.extend_from_slice(&second);
    let (out, ok) = process_stream(&input);
    assert!(ok);
    assert_eq!(out, "object A {{{x}}} {\n}\n\n" .to_owned() + "object B {{{y}}} {\n}\n\n");
}

#[test]
fn empty_stream_succeeds_with_no_output() {
    let (out, ok) = process_stream(&Vec::new());
    assert!(ok);
    assert_eq!(out, "");
}

#[test]
fn stream_stops_at_a_bad_payload() {
    let good = encode_frame(&bytes("{\"type\":\"A\",\"name\":\"x\"}"));
    let bad = encode_frame(&bytes("hello"));
    let tail = encode_frame(&bytes("{\"type\":\"B\",\"name\":\"y\"}"));
    let mut input = good.clone();
    input.extend_from_slice(&bad);
    input.extend_from_slice(&tail);
    let (out, ok) = process_stream(&input);
    assert!(!ok);
    assert_eq!(out, "object A {{{x}}} {\n}\n\n");
}

#[test]
fn stream_stops_at_a_truncated_frame() {
    let good = encode_frame(&bytes("{\"type\":\"A\",\"name\":\"x\"}"));
    let mut input = good.clone();
    input.extend_from_slice(&bytes("10:abc"));
    let (out, ok) = process_stream(&input);
    assert!(!ok);
    assert_eq!(out, "object A {{{x}}} {\n}\n\n");
}

#[test]
fn duplicate_keys_take_the_last_value() {
    let block = process_payload(&bytes("{\"type\":\"T\",\"type\":\"U\",\"name\":\"n\"}")).unwrap();
    assert_eq!(block, "object U {{{n}}} {\n}\n\n");
}
