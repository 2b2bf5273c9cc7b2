use keystation::keybed::Key;
use keystation::protocol::{
    clamp_travel, decode_next, encode_key_down, encode_key_up, encode_panic, encode_version,
    frame_for_event, DecodeOutcome, FirmwareMessage,
};
use keystation::text::is_valid_utf8;

#[test]
fn key_down_round_trip() {
    let frame = encode_key_down(7, 42);
    assert_eq!(frame, vec![b'D', 7, 42]);
    match decode_next(&frame) {
        DecodeOutcome::Frame { msg, used } => {
            assert_eq!(msg, FirmwareMessage::KeyDown(7, 42));
            assert_eq!(used, 3);
        }
        other => panic!("expected a frame, got {:?}", other),
    }
}

#[test]
fn key_up_round_trip() {
    let frame = encode_key_up(31);
    assert_eq!(frame, vec![b'U', 31]);
    match decode_next(&frame) {
        DecodeOutcome::Frame { msg, used } => {
            assert_eq!(msg, FirmwareMessage::KeyUp(31));
            assert_eq!(used, 2);
        }
        other => panic!("expected a frame, got {:?}", other),
    }
}

#[test]
fn version_round_trip_is_byte_exact() {
    let text = b"I am a keyboard! :3 1.0".to_vec();
    let frame = encode_version(&text);
    // Byte-exact framing: tag, length prefix, then the text itself.
    assert_eq!(frame[0], b'V');
    assert_eq!(frame[1], text.len() as u8);
    assert_eq!(&frame[2..], &text[..]);
    match decode_next(&frame) {
        DecodeOutcome::Frame { msg, used } => {
            assert_eq!(msg, FirmwareMessage::Version(text.clone()));
            assert_eq!(used, text.len() + 2);
        }
        other => panic!("expected a frame, got {:?}", other),
    }
}

#[test]
fn panic_frames_decode_from_both_tags() {
    let frame = encode_panic();
    assert_eq!(frame, vec![b'P']);
    assert!(matches!(
        decode_next(&frame),
        DecodeOutcome::Frame { msg: FirmwareMessage::Panic, used: 1 }
    ));
    assert!(matches!(
        decode_next(&vec![b'p']),
        DecodeOutcome::Frame { msg: FirmwareMessage::Panic, used: 1 }
    ));
}

#[test]
fn decoder_resynchronizes_past_noise() {
    // A garbage byte, then a complete key-down frame: exactly one message,
    // and the noise is not mis-parsed as a tag.
    let stream = vec![0xFF, b'D', 5, 10];
    match decode_next(&stream) {
        DecodeOutcome::Frame { msg, used } => {
            assert_eq!(msg, FirmwareMessage::KeyDown(5, 10));
            assert_eq!(used, 4);
        }
        other => panic!("expected a frame, got {:?}", other),
    }
    // Nothing further follows once the frame's bytes are consumed.
    let rest: Vec<u8> = stream[4..].to_vec();
    assert!(matches!(decode_next(&rest), DecodeOutcome::NeedMore { skipped: 0 }));
}

#[test]
fn incomplete_frames_wait_for_more_bytes() {
    assert!(matches!(decode_next(&vec![b'D', 5]), DecodeOutcome::NeedMore { skipped: 0 }));
    assert!(matches!(decode_next(&vec![b'U']), DecodeOutcome::NeedMore { skipped: 0 }));
    assert!(matches!(decode_next(&vec![b'V', 3, b'a']), DecodeOutcome::NeedMore { skipped: 0 }));
    // Pure noise may all be discarded.
    assert!(matches!(decode_next(&vec![1, 2, 3]), DecodeOutcome::NeedMore { skipped: 3 }));
    assert!(matches!(decode_next(&Vec::new()), DecodeOutcome::NeedMore { skipped: 0 }));
}

#[test]
fn noise_before_incomplete_frame_is_still_discardable() {
    match decode_next(&vec![9, 8, b'D', 5]) {
        DecodeOutcome::NeedMore { skipped } => assert_eq!(skipped, 2),
        other => panic!("expected to wait, got {:?}", other),
    }
}

#[test]
fn malformed_version_text_is_reported() {
    // 0xC3 0x28 is not valid UTF-8.
    let stream = vec![b'V', 2, 0xC3, 0x28];
    match decode_next(&stream) {
        DecodeOutcome::BadVersionText { used } => assert_eq!(used, 4),
        other => panic!("expected bad version text, got {:?}", other),
    }
}

#[test]
fn frames_for_reported_transitions() {
    assert_eq!(frame_for_event(10, Key::Down(12)), Some(vec![b'D', 10, 12]));
    assert_eq!(frame_for_event(10, Key::Down(1000)), Some(vec![b'D', 10, 255]));
    assert_eq!(frame_for_event(3, Key::Up), Some(vec![b'U', 3]));
    assert_eq!(frame_for_event(3, Key::DownPartial(7)), None);
}

#[test]
fn travel_time_clamps_to_a_byte() {
    assert_eq!(clamp_travel(0), 0);
    assert_eq!(clamp_travel(42), 42);
    assert_eq!(clamp_travel(255), 255);
    assert_eq!(clamp_travel(300), 255);
    assert_eq!(clamp_travel(u32::MAX), 255);
}

#[test]
fn utf8_validator_agrees_with_the_standard_library() {
    let cases: Vec<Vec<u8>> = vec![
        b"".to_vec(),
        b"plain ascii".to_vec(),
        b"I am a keyboard! :3 1.0".to_vec(),
        "caf\u{e9} \u{2603} \u{1f600}".as_bytes().to_vec(),
        vec![0x80],                   // lone continuation byte
        vec![0xC0, 0xAF],             // overlong two-byte encoding
        vec![0xC1, 0xBF],             // overlong two-byte encoding
        vec![0xC2, 0x80],             // smallest valid two-byte scalar
        vec![0xE0, 0x80, 0x80],       // overlong three-byte encoding
        vec![0xE0, 0xA0, 0x80],       // smallest valid three-byte scalar
        vec![0xED, 0x9F, 0xBF],       // last scalar before the surrogates
        vec![0xED, 0xA0, 0x80],       // a surrogate: invalid
        vec![0xEE, 0x80, 0x80],       // first scalar after the surrogates
        vec![0xF0, 0x80, 0x80, 0x80], // overlong four-byte encoding
        vec![0xF0, 0x90, 0x80, 0x80], // smallest valid four-byte scalar
        vec![0xF4, 0x8F, 0xBF, 0xBF], // the very last scalar
        vec![0xF4, 0x90, 0x80, 0x80], // beyond the last scalar
        vec![0xF8, 0x88, 0x80, 0x80], // five-byte lead: invalid
        vec![0xE2, 0x82],             // truncated three-byte scalar
        vec![b'a', 0xC3],             // truncated tail
        vec![0xC3, 0xA9, b'x'],       // valid scalar then ascii
    ];
    for bytes in cases {
        assert_eq!(
            is_valid_utf8(&bytes),
            String::from_utf8(bytes.clone()).is_ok(),
            "disagreement on {:?}",
            bytes
        );
    }
}
