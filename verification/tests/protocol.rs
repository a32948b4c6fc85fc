use nltt::protocol::{PupaCodec, PupaFrame, DecodeError};

#[test]
fn test_frame_encoder_decoder() {
    let frame = PupaFrame::Content {
        msg_id: uuid::Uuid::new_v4().as_u128(),
        body: vec![1, 2, 3, 4, 5],
    };

    let mut buffer: Vec<u8> = Vec::new();
    PupaCodec::new().encode(frame.clone(), &mut buffer);

    let decoded = PupaCodec::new().decode(&mut buffer).unwrap().unwrap();
    assert_eq!(frame, decoded)
}

#[test]
fn test_frame_encoder_decoder_on_multiplexed_stream() {
    let frame1 = PupaFrame::Content {
        msg_id: uuid::Uuid::new_v4().as_u128(),
        body: vec![1, 2, 3, 4, 5],
    };

    let frame2 = PupaFrame::Content {
        msg_id: uuid::Uuid::new_v4().as_u128(),
        body: vec![1, 2, 3, 4, 5, 6, 7, 8],
    };

    let mut buffer: Vec<u8> = Vec::new();

    PupaCodec::new().encode(frame1.clone(), &mut buffer);
    PupaCodec::new().encode(frame2.clone(), &mut buffer);

    let decoded1 = PupaCodec::new().decode(&mut buffer).unwrap().unwrap();
    let decoded2 = PupaCodec::new().decode(&mut buffer).unwrap().unwrap();

    assert_eq!(frame1, decoded1);
    assert_eq!(frame2, decoded2);
    assert_eq!(buffer.len(), 0);
}

fn all_variants() -> Vec<PupaFrame> {
    vec![
        PupaFrame::Authorize { signature: 0x0102_0304_0506_0708_090a_0b0c_0d0e_0f10 },
        PupaFrame::NonAuthorized,
        PupaFrame::Content { msg_id: 7, body: vec![0xde, 0xad] },
        PupaFrame::Flash { msg_id: 7 },
        PupaFrame::Win { msg_id: 7, body: vec![0xde, 0xad] },
        PupaFrame::ShowWinners,
        PupaFrame::WinnerRecord {
            signature: 42,
            online: true,
            wins: 3,
            messages_received: 11,
            messages_sent: 12,
        },
        PupaFrame::ShowWinnersLog,
        PupaFrame::WinLogRecord { signature: 42, timestamp: 1_700_000_000, msg_id: 7 },
    ]
}

#[test]
fn round_trip_every_variant() {
    for frame in all_variants() {
        let mut buffer: Vec<u8> = Vec::new();
        PupaCodec::new().encode(frame.clone(), &mut buffer);
        let mut codec = PupaCodec::new();
        let decoded = codec.decode(&mut buffer).unwrap().unwrap();
        assert_eq!(frame, decoded);
        assert_eq!(buffer.len(), 0);
    }
}

#[test]
fn golden_bytes_flash() {
    // Tag 3 as 32-bit little-endian, then the id: length prefix 16 as
    // 64-bit little-endian, then the 16 little-endian bytes of the value.
    let frame = PupaFrame::Flash { msg_id: 0x0201 };
    let mut buffer: Vec<u8> = Vec::new();
    PupaCodec::new().encode(frame, &mut buffer);
    let mut expected = vec![3, 0, 0, 0, 16, 0, 0, 0, 0, 0, 0, 0, 0x01, 0x02];
    expected.extend(std::iter::repeat(0).take(14));
    assert_eq!(buffer, expected);
}

#[test]
fn golden_bytes_content() {
    let frame = PupaFrame::Content { msg_id: 5, body: vec![0xaa, 0xbb, 0xcc] };
    let mut buffer: Vec<u8> = Vec::new();
    PupaCodec::new().encode(frame, &mut buffer);
    let mut expected = vec![2, 0, 0, 0, 16, 0, 0, 0, 0, 0, 0, 0, 5];
    expected.extend(std::iter::repeat(0).take(15)); // the id's high bytes
    expected.extend(vec![3, 0, 0, 0, 0, 0, 0, 0]); // body length prefix
    expected.extend(vec![0xaa, 0xbb, 0xcc]);
    assert_eq!(buffer, expected);
}

#[test]
fn fragmented_frame_needs_more_then_decodes() {
    let frame = PupaFrame::Content { msg_id: 99, body: vec![1, 2, 3, 4, 5, 6, 7] };
    let mut encoded: Vec<u8> = Vec::new();
    PupaCodec::new().encode(frame.clone(), &mut encoded);

    // Every split point behaves the same way: the first fragment asks for
    // more, and the reunited buffer decodes to the frame.
    for k in 1..encoded.len() {
        let mut codec = PupaCodec::new();
        let mut buffer: Vec<u8> = encoded[..k].to_vec();
        assert!(matches!(codec.decode(&mut buffer), Ok(None)));
        assert_eq!(buffer.len(), k);
        buffer.extend_from_slice(&encoded[k..]);
        let decoded = codec.decode(&mut buffer).unwrap().unwrap();
        assert_eq!(frame, decoded);
        assert_eq!(buffer.len(), 0);
    }
}

#[test]
fn empty_buffer_needs_more() {
    let mut codec = PupaCodec::new();
    let mut buffer: Vec<u8> = Vec::new();
    assert!(matches!(codec.decode(&mut buffer), Ok(None)));
}

#[test]
fn second_consecutive_failure_clears_buffer_and_errors() {
    let mut codec = PupaCodec::new();
    // Tag 200 is no variant: the frame can never complete.
    let mut buffer: Vec<u8> = vec![200, 0, 0, 0, 1, 2, 3];
    assert!(matches!(codec.decode(&mut buffer), Ok(None)));
    assert_eq!(buffer.len(), 7);
    let err = codec.decode(&mut buffer);
    assert_eq!(err, Err(DecodeError::Corrupt));
    assert_eq!(buffer.len(), 0);
}

#[test]
fn success_resets_the_waited_flag() {
    let mut codec = PupaCodec::new();
    let mut buffer: Vec<u8> = vec![5, 0]; // truncated ShowWinners tag
    assert!(matches!(codec.decode(&mut buffer), Ok(None)));
    buffer.extend_from_slice(&[0, 0]);
    let decoded = codec.decode(&mut buffer).unwrap().unwrap();
    assert_eq!(decoded, PupaFrame::ShowWinners);
    // The flag was cleared on success: a fresh partial frame waits again
    // instead of erroring.
    buffer.extend_from_slice(&[3, 0]);
    assert!(matches!(codec.decode(&mut buffer), Ok(None)));
}

#[test]
fn pipelined_distinct_variants_decode_in_order() {
    let f1 = PupaFrame::Authorize { signature: 77 };
    let f2 = PupaFrame::ShowWinnersLog;
    let f3 = PupaFrame::Win { msg_id: 8, body: vec![9] };
    let mut buffer: Vec<u8> = Vec::new();
    let mut codec = PupaCodec::new();
    codec.encode(f1.clone(), &mut buffer);
    codec.encode(f2.clone(), &mut buffer);
    codec.encode(f3.clone(), &mut buffer);
    assert_eq!(codec.decode(&mut buffer).unwrap().unwrap(), f1);
    assert_eq!(codec.decode(&mut buffer).unwrap().unwrap(), f2);
    assert_eq!(codec.decode(&mut buffer).unwrap().unwrap(), f3);
    assert_eq!(buffer.len(), 0);
}
