use mzmq::frame::decode_error::DecodeError;
use mzmq::frame::{
    encode_command_frame, encode_message_frame, DecodedFrame, FrameDecoder, FrameError,
};

#[test]
fn short_message_last_frame_header() {
    let mut buf = [0u8; 9];
    let result = encode_message_frame(&mut buf, 6, false);
    assert_eq!(result, Ok(2));
    assert_eq!(&buf[..2], &[0x00, 0x06]);
}

#[test]
fn short_message_more_frame_header() {
    let mut buf = [0u8; 9];
    let result = encode_message_frame(&mut buf, 3, true);
    assert_eq!(result, Ok(2));
    assert_eq!(&buf[..2], &[0x01, 0x03]);
}

#[test]
fn short_frame_max_body_255() {
    let mut buf = [0u8; 9];
    let result = encode_message_frame(&mut buf, 255, false);
    assert_eq!(result, Ok(2));
    assert_eq!(&buf[..2], &[0x00, 0xFF]);
}

#[test]
fn long_frame_body_256_switches_to_long() {
    let mut buf = [0u8; 9];
    let result = encode_message_frame(&mut buf, 256, false);
    assert_eq!(result, Ok(9));
    assert_eq!(buf[0], 0x02);
    assert_eq!(&buf[1..9], &[0, 0, 0, 0, 0, 0, 1, 0]);
}

#[test]
fn long_frame_body_65536() {
    let mut buf = [0u8; 9];
    let result = encode_message_frame(&mut buf, 65536, false);
    assert_eq!(result, Ok(9));
    assert_eq!(buf[0], 0x02);
    let size = u64::from_be_bytes(buf[1..9].try_into().unwrap());
    assert_eq!(size, 65536u64);
}

#[test]
fn long_frame_more_flag() {
    let mut buf = [0u8; 9];
    let result = encode_message_frame(&mut buf, 300, true);
    assert_eq!(result, Ok(9));
    assert_eq!(buf[0], 0x03);
}

#[test]
fn command_frame_short() {
    let mut buf = [0u8; 9];
    let result = encode_command_frame(&mut buf, 25);
    assert_eq!(result, Ok(2));
    assert_eq!(&buf[..2], &[0x04, 0x19]);
}

#[test]
fn command_frame_long() {
    let mut buf = [0u8; 9];
    let result = encode_command_frame(&mut buf, 300);
    assert_eq!(result, Ok(9));
    assert_eq!(buf[0], 0x06);
    let size = u64::from_be_bytes(buf[1..9].try_into().unwrap());
    assert_eq!(size, 300u64);
}

#[test]
fn message_frame_buffer_too_small_short() {
    let mut buf = [0u8; 1];
    let result = encode_message_frame(&mut buf, 10, false);
    assert_eq!(result, Err(FrameError::BufferTooSmall));
}

#[test]
fn message_frame_buffer_too_small_long() {
    let mut buf = [0u8; 8];
    let result = encode_message_frame(&mut buf, 256, false);
    assert_eq!(result, Err(FrameError::BufferTooSmall));
}

#[test]
fn encode_pub_message_topic_and_payload() {
    let mut buf = [0u8; 9];

    // First frame: topic "foo", more=true
    let r1 = encode_message_frame(&mut buf, b"foo".len(), true);
    assert_eq!(r1, Ok(2));
    assert_eq!(&buf[..2], &[0x01, 0x03]);

    // Second frame: payload "bar", more=false
    let r2 = encode_message_frame(&mut buf, b"bar".len(), false);
    assert_eq!(r2, Ok(2));
    assert_eq!(&buf[..2], &[0x00, 0x03]);
}

// ---- FrameDecoder tests ----

#[test]
fn decode_short_message_frame_all_at_once() {
    let mut dec: FrameDecoder<64> = FrameDecoder::new();
    let input = [0x00u8, 0x06, b'f', b'o', b'o', b'b', b'a', b'r'];
    let result = dec.feed(&input);
    assert_eq!(
        result,
        Ok((
            8,
            Some(DecodedFrame {
                more: false,
                is_command: false,
                body: b"foobar"
            })
        ))
    );
}

#[test]
fn decode_short_command_frame_all_at_once() {
    // READY command: flags=0x04, size=0x19 (25), body = [0x05, 'R','E','A','D','Y', ...metadata...]
    // Full 27-byte READY frame
    let mut frame = [0u8; 27];
    frame[0] = 0x04; // flags: COMMAND=1
    frame[1] = 0x19; // size = 25
    // body: name-len(1)=5, "READY"(5), no properties = 6 bytes... but size=25 means 25 body bytes
    // Construct: 0x05 'R' 'E' 'A' 'D' 'Y' followed by 19 zero bytes (empty metadata)
    frame[2] = 0x05; // name length
    frame[3] = b'R';
    frame[4] = b'E';
    frame[5] = b'A';
    frame[6] = b'D';
    frame[7] = b'Y';
    // remaining 19 bytes of body are 0x00 (already zeroed)
    let mut dec: FrameDecoder<64> = FrameDecoder::new();
    let result = dec.feed(&frame);
    let expected_body: &[u8] = &frame[2..27];
    assert_eq!(
        result,
        Ok((
            27,
            Some(DecodedFrame {
                more: false,
                is_command: true,
                body: expected_body
            })
        ))
    );
}

#[test]
fn decode_short_message_byte_by_byte() {
    let mut dec: FrameDecoder<64> = FrameDecoder::new();
    let input = [0x00u8, 0x06, b'f', b'o', b'o', b'b', b'a', b'r'];
    for &byte in &input[..input.len() - 1] {
        let result = dec.feed(core::slice::from_ref(&byte));
        assert_eq!(result, Ok((1, None)));
    }
    // last byte should complete the frame
    let last = dec.feed(&input[input.len() - 1..]);
    assert_eq!(
        last,
        Ok((
            1,
            Some(DecodedFrame {
                more: false,
                is_command: false,
                body: b"foobar"
            })
        ))
    );
}

#[test]
fn decode_long_frame_header_then_body() {
    let body_len: usize = 256;
    let mut buf = [0u8; 9 + 256];
    buf[0] = 0x02; // flags: LONG=1, COMMAND=0, MORE=0
    let size_bytes = (body_len as u64).to_be_bytes();
    buf[1..9].copy_from_slice(&size_bytes);
    for i in 0..body_len {
        buf[9 + i] = (i & 0xFF) as u8;
    }
    let mut dec: FrameDecoder<512> = FrameDecoder::new();
    let result = dec.feed(&buf);
    match result {
        Ok((consumed, Some(frame))) => {
            assert_eq!(consumed, 9 + body_len);
            assert!(!frame.more);
            assert!(!frame.is_command);
            assert_eq!(frame.body.len(), body_len);
            for i in 0..body_len {
                assert_eq!(frame.body[i], (i & 0xFF) as u8);
            }
        }
        other => panic!("unexpected result: {:?}", other),
    }
}

#[test]
fn decode_more_flag_set() {
    let mut dec: FrameDecoder<64> = FrameDecoder::new();
    let input = [0x01u8, 0x03, b'f', b'o', b'o'];
    let result = dec.feed(&input);
    assert_eq!(
        result,
        Ok((
            5,
            Some(DecodedFrame {
                more: true,
                is_command: false,
                body: b"foo"
            })
        ))
    );
}

#[test]
fn decode_rejects_reserved_flag_bits() {
    let mut dec: FrameDecoder<64> = FrameDecoder::new();
    let input = [0x08u8, 0x01, 0x00]; // bit 3 set in flags
    let result = dec.feed(&input);
    assert_eq!(result, Err(DecodeError::ReservedFlagBits));
}

#[test]
fn decode_rejects_body_exceeding_capacity() {
    let mut dec: FrameDecoder<4> = FrameDecoder::new();
    // short frame with body_len=5, exceeds CAP=4
    let input = [0x00u8, 0x05, b'h', b'e', b'l', b'l', b'o'];
    let result = dec.feed(&input);
    assert_eq!(result, Err(DecodeError::BodyTooLarge));
}

#[test]
fn decode_two_frames_sequential() {
    let mut dec: FrameDecoder<64> = FrameDecoder::new();
    let frame1 = [0x00u8, 0x03, b'o', b'n', b'e'];
    let frame2 = [0x00u8, 0x03, b't', b'w', b'o'];
    let r1 = dec.feed(&frame1);
    assert_eq!(
        r1,
        Ok((
            5,
            Some(DecodedFrame {
                more: false,
                is_command: false,
                body: b"one"
            })
        ))
    );
    let r2 = dec.feed(&frame2);
    assert_eq!(
        r2,
        Ok((
            5,
            Some(DecodedFrame {
                more: false,
                is_command: false,
                body: b"two"
            })
        ))
    );
}

#[test]
fn decode_partial_then_complete() {
    let mut dec: FrameDecoder<64> = FrameDecoder::new();
    // header only (flags + size), no body
    let header = [0x00u8, 0x04];
    let r1 = dec.feed(&header);
    assert_eq!(r1, Ok((2, None)));
    // now feed body
    let body = [b'd', b'a', b't', b'a'];
    let r2 = dec.feed(&body);
    assert_eq!(
        r2,
        Ok((
            4,
            Some(DecodedFrame {
                more: false,
                is_command: false,
                body: b"data"
            })
        ))
    );
}
