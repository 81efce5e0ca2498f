use icinga_filter::frame::{encode_frame, next_frame, FrameError};

#[test]
fn round_trip_simple() {
    let payload: Vec<u8> = "hello".as_bytes().to_vec();
    let framed = encode_frame(&payload);
    assert_eq!(framed, "5:hello,".as_bytes().to_vec());
    let (back, next) = next_frame(&framed, 0).unwrap();
    assert_eq!(back, payload);
    assert_eq!(next, framed.len());
}

#[test]
fn round_trip_empty_payload() {
    let payload: Vec<u8> = Vec::new();
    let framed = encode_frame(&payload);
    assert_eq!(framed, "0:,".as_bytes().to_vec());
    let (back, next) = next_frame(&framed, 0).unwrap();
    assert_eq!(back, payload);
    assert_eq!(next, 3);
}

#[test]
fn round_trip_longer_payload() {
    let mut payload: Vec<u8> = Vec::new();
    for i in 0..1234u32 {
        payload.push((i % 251) as u8);
    }
    let framed = encode_frame(&payload);
    let (back, next) = next_frame(&framed, 0).unwrap();
    assert_eq!(back, payload);
    assert_eq!(next, framed.len());
}

#[test]
fn clean_end_empty_input() {
    let input: Vec<u8> = Vec::new();
    assert_eq!(next_frame(&input, 0), Err(FrameError::CleanEnd));
}

#[test]
fn clean_end_after_one_frame() {
    let input = "5:hello,".as_bytes().to_vec();
    let (_, next) = next_frame(&input, 0).unwrap();
    assert_eq!(next_frame(&input, next), Err(FrameError::CleanEnd));
}

#[test]
fn truncation_short_body() {
    let input = "10:hello".as_bytes().to_vec();
    assert_eq!(next_frame(&input, 0), Err(FrameError::Truncated));
}

#[test]
fn truncation_digits_then_end() {
    let input = "123".as_bytes().to_vec();
    assert_eq!(next_frame(&input, 0), Err(FrameError::Truncated));
}

#[test]
fn truncation_missing_terminator() {
    let input = "5:hello".as_bytes().to_vec();
    assert_eq!(next_frame(&input, 0), Err(FrameError::Truncated));
}

#[test]
fn malformed_wrong_terminator() {
    let input = "5:hello?".as_bytes().to_vec();
    assert_eq!(next_frame(&input, 0), Err(FrameError::Malformed));
}

#[test]
fn malformed_nondigit_prefix() {
    let input = "x5:hello,".as_bytes().to_vec();
    assert_eq!(next_frame(&input, 0), Err(FrameError::Malformed));
}

#[test]
fn malformed_empty_prefix() {
    let input = ":hello,".as_bytes().to_vec();
    assert_eq!(next_frame(&input, 0), Err(FrameError::Malformed));
}

#[test]
fn truncation_huge_declared_length() {
    let input = "99999999999999999999:a,".as_bytes().to_vec();
    assert_eq!(next_frame(&input, 0), Err(FrameError::Truncated));
}

#[test]
fn two_frames_in_sequence() {
    let input = "5:hello,5:world,".as_bytes().to_vec();
    let (first, next) = next_frame(&input, 0).unwrap();
    assert_eq!(first, "hello".as_bytes().to_vec());
    let (second, after) = next_frame(&input, next).unwrap();
    assert_eq!(second, "world".as_bytes().to_vec());
    assert_eq!(after, input.len());
}

#[test]
fn length_prefix_with_leading_zeros() {
    let input = "005:hello,".as_bytes().to_vec();
    let (payload, next) = next_frame(&input, 0).unwrap();
    assert_eq!(payload, "hello".as_bytes().to_vec());
    assert_eq!(next, input.len());
}
