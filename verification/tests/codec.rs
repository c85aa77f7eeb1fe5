use rosenpass_control::codec::{
    decode_frame, decode_len, encode_frame, encode_len, read_header, Decoded, Direction,
    FrameError, FrameLimits, HEADER_LEN,
};
use rosenpass_control::error::ErrorKind;

fn limits() -> FrameLimits {
    FrameLimits::new(16, 4)
}

#[test]
fn header_round_trip() {
    let header = encode_len(0x0102_0304_0506_0708);
    assert_eq!(header, [0x08, 0x07, 0x06, 0x05, 0x04, 0x03, 0x02, 0x01]);
    assert_eq!(decode_len(&header), 0x0102_0304_0506_0708);
}

#[test]
fn header_is_what_the_standard_library_writes() {
    for len in [0u64, 1, 255, 256, 65_535, 65_536, 1 << 32, u64::MAX - 1, u64::MAX] {
        assert_eq!(encode_len(len), len.to_le_bytes());
        assert_eq!(decode_len(&len.to_le_bytes()), len);
    }
}

#[test]
fn header_has_eight_bytes() {
    assert_eq!(HEADER_LEN, 8);
    assert_eq!(encode_len(3).len(), HEADER_LEN);
}

#[test]
fn read_header_takes_the_first_eight_bytes() {
    let input = [9u8, 8, 7, 6, 5, 4, 3, 2, 1, 0];
    assert_eq!(read_header(&input), Some([9, 8, 7, 6, 5, 4, 3, 2]));
    assert_eq!(read_header(&input[..8]), Some([9, 8, 7, 6, 5, 4, 3, 2]));
}

#[test]
fn read_header_needs_eight_bytes() {
    assert_eq!(read_header(&[1, 2, 3, 4, 5, 6, 7]), None);
    assert_eq!(read_header(&[]), None);
}

#[test]
fn frame_is_header_then_payload() {
    assert_eq!(encode_frame(&[1, 2, 3]), vec![3, 0, 0, 0, 0, 0, 0, 0, 1, 2, 3]);
    assert_eq!(encode_frame(&[]), vec![0, 0, 0, 0, 0, 0, 0, 0]);
}

#[test]
fn frame_round_trip() {
    let payloads: Vec<Vec<u8>> = vec![vec![], vec![0], vec![1, 2, 3], (0u8..16).collect()];
    for payload in payloads {
        let frame = encode_frame(&payload);
        match decode_frame(&frame, &limits(), Direction::Request) {
            Ok(Decoded::Complete { payload: got, consumed }) => {
                assert_eq!(got, payload);
                assert_eq!(consumed, 8 + payload.len());
            }
            other => panic!("not decoded: {:?}", other),
        }
    }
}

#[test]
fn frame_round_trip_leaves_what_follows() {
    let mut stream = encode_frame(&[7, 7]);
    stream.extend_from_slice(&encode_frame(&[8]));
    match decode_frame(&stream, &limits(), Direction::Request) {
        Ok(Decoded::Complete { payload, consumed }) => {
            assert_eq!(payload, vec![7, 7]);
            assert_eq!(consumed, 10);
            match decode_frame(&stream[consumed..], &limits(), Direction::Request) {
                Ok(Decoded::Complete { payload, consumed }) => {
                    assert_eq!(payload, vec![8]);
                    assert_eq!(consumed, 9);
                }
                other => panic!("second frame not decoded: {:?}", other),
            }
        }
        other => panic!("first frame not decoded: {:?}", other),
    }
}

#[test]
fn oversized_header_is_refused_without_a_body() {
    let header = [0xffu8; 8];
    match decode_frame(&header, &limits(), Direction::Request) {
        Err(e) => {
            assert_eq!(e, FrameError::OversizedRequest(u64::MAX));
            assert_eq!(e.kind(), ErrorKind::OversizedRequest);
            assert_eq!(e.declared(), u64::MAX);
        }
        other => panic!("accepted: {:?}", other),
    }
}

#[test]
fn oversized_header_is_refused_whatever_follows() {
    let mut input = encode_len(17).to_vec();
    input.extend_from_slice(&[0u8; 17]);
    assert_eq!(
        decode_frame(&input, &limits(), Direction::Request).err(),
        Some(FrameError::OversizedRequest(17))
    );
}

#[test]
fn each_direction_has_its_own_bound() {
    let frame = encode_frame(&[1, 2, 3, 4, 5]);
    assert!(matches!(
        decode_frame(&frame, &limits(), Direction::Request),
        Ok(Decoded::Complete { .. })
    ));
    assert_eq!(
        decode_frame(&frame, &limits(), Direction::Response).err(),
        Some(FrameError::OversizedResponse(5))
    );
    assert_eq!(limits().max_len(Direction::Request), 16);
    assert_eq!(limits().max_len(Direction::Response), 4);
}

#[test]
fn bound_is_inclusive() {
    assert_eq!(limits().check_len(Direction::Request, 16), Ok(16));
    assert_eq!(
        limits().check_len(Direction::Request, 17),
        Err(FrameError::OversizedRequest(17))
    );
    assert_eq!(limits().check_len(Direction::Response, 4), Ok(4));
    assert_eq!(
        limits().check_len(Direction::Response, 5),
        Err(FrameError::OversizedResponse(5))
    );
    assert_eq!(limits().check_len(Direction::Response, 0), Ok(0));
}

#[test]
fn short_header_is_incomplete() {
    for have in 0..8usize {
        let input = vec![0u8; have];
        match decode_frame(&input, &limits(), Direction::Request) {
            Ok(Decoded::Incomplete(missing)) => assert_eq!(missing, (8 - have) as u64),
            other => panic!("not incomplete: {:?}", other),
        }
    }
}

#[test]
fn short_payload_is_incomplete() {
    let frame = encode_frame(&[1, 2, 3, 4]);
    for have in 8..frame.len() {
        match decode_frame(&frame[..have], &limits(), Direction::Request) {
            Ok(Decoded::Incomplete(missing)) => assert_eq!(missing, (frame.len() - have) as u64),
            other => panic!("not incomplete: {:?}", other),
        }
    }
}
