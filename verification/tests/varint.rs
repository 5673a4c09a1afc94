use kwaainet::varint::{decode_u64, encode_u64, frame, frame_length, FrameError, VarintError};

#[test]
fn encodes_known_values() {
    assert_eq!(encode_u64(0), vec![0]);
    assert_eq!(encode_u64(127), vec![0x7f]);
    assert_eq!(encode_u64(128), vec![0x80, 0x01]);
    assert_eq!(encode_u64(300), vec![0xac, 0x02]);
    let max = encode_u64(u64::MAX);
    assert_eq!(max.len(), 10);
    assert_eq!(max[9], 0x01);
}

#[test]
fn decodes_and_reports_errors() {
    assert_eq!(decode_u64(&vec![0xac, 0x02, 0xff]), Ok((300, 2)));
    assert_eq!(decode_u64(&vec![]), Err(VarintError::Insufficient));
    assert_eq!(decode_u64(&vec![0x80]), Err(VarintError::Insufficient));
    assert_eq!(decode_u64(&vec![0x80; 10]), Err(VarintError::Overflow));
    assert_eq!(decode_u64(&vec![0x80, 0x00]), Err(VarintError::NotMinimal));
    assert_eq!(decode_u64(&vec![0x00]), Ok((0, 1)));
}

#[test]
fn varint_roundtrip_on_samples() {
    for n in [0u64, 1, 127, 128, 255, 16384, 1 << 35, u64::MAX - 1, u64::MAX] {
        let mut bytes = encode_u64(n);
        let len = bytes.len();
        bytes.extend_from_slice(&[0xde, 0xad]);
        assert_eq!(decode_u64(&bytes), Ok((n, len)));
    }
}

#[test]
fn frames_carry_their_length() {
    let payload = vec![7u8; 300];
    let f = frame(&payload);
    assert_eq!(&f[..2], &[0xac, 0x02]);
    assert_eq!(&f[2..], &payload[..]);
    assert_eq!(frame_length(&f[..2].to_vec()), Ok(300));
    assert_eq!(frame_length(&encode_u64(10 * 1024 * 1024)), Ok(10 * 1024 * 1024));
    assert_eq!(
        frame_length(&encode_u64(10 * 1024 * 1024 + 1)),
        Err(FrameError::TooLarge(10 * 1024 * 1024 + 1))
    );
    assert_eq!(
        frame_length(&vec![0x80]),
        Err(FrameError::BadLength(VarintError::Insufficient))
    );
}
