use distributed_kv::frame::{decode_frame, encode_frame, frame_payload_len, FrameError, MAX_FRAME_LEN};

#[test]
fn frame_is_big_endian_length_then_payload() {
    let f = encode_frame(b"hello");
    assert_eq!(f, vec![0, 0, 0, 5, b'h', b'e', b'l', b'l', b'o']);
    let big = vec![7u8; 0x0102];
    let f = encode_frame(&big);
    assert_eq!(&f[..4], &[0, 0, 1, 2]);
    assert_eq!(f.len(), 4 + 0x0102);
}

#[test]
fn frame_reads_back_with_trailing_bytes() {
    let payload = br#"{"id":1,"method":"get"}"#.to_vec();
    let mut bytes = encode_frame(&payload);
    bytes.extend_from_slice(&[9, 9, 9]);
    assert_eq!(decode_frame(&bytes), Ok((payload.clone(), payload.len() + 4)));
}

#[test]
fn empty_frame_reads_back() {
    assert_eq!(decode_frame(&encode_frame(&[])), Ok((vec![], 4)));
}

#[test]
fn largest_frame_reads_back_and_one_more_is_refused() {
    let payload = vec![1u8; MAX_FRAME_LEN];
    let bytes = encode_frame(&payload);
    assert_eq!(decode_frame(&bytes), Ok((payload, MAX_FRAME_LEN + 4)));
    let payload = vec![1u8; MAX_FRAME_LEN + 1];
    let bytes = encode_frame(&payload);
    assert_eq!(decode_frame(&bytes), Err(FrameError::TooLarge { len: MAX_FRAME_LEN + 1 }));
}

#[test]
fn short_input_is_refused() {
    assert_eq!(decode_frame(&[0, 0, 1]), Err(FrameError::MissingHeader));
    assert_eq!(decode_frame(&[0, 0, 0, 3, 1, 2]), Err(FrameError::MissingPayload { len: 3 }));
}

#[test]
fn header_length_is_checked_against_the_limit() {
    assert_eq!(frame_payload_len([0, 0, 0, 0]), Ok(0));
    assert_eq!(frame_payload_len([0, 0x10, 0, 0]), Ok(1_048_576));
    assert_eq!(frame_payload_len([0, 0x10, 0, 1]), Err(FrameError::TooLarge { len: 1_048_577 }));
    assert_eq!(
        frame_payload_len([0xff, 0xff, 0xff, 0xff]),
        Err(FrameError::TooLarge { len: 0xffff_ffff })
    );
}
