use monoio_ws::frame::{Frame, Message};
use monoio_ws::Opcode;

const MASK: [u8; 4] = [0x0a, 0xf1, 0x22, 0x33];

#[test]
fn test_encode_control_slice() {
    let cases: Vec<(Vec<u8>, Vec<u8>)> = vec![
        (
            vec![],
            vec![
                130, 128, 10, 241, 34, 51,
            ],
        ),
        (
            vec![
                0x68, 0x65, 0x6C, 0x6C,
            ],
            vec![
                130, 132, 10, 241, 34, 51, 98, 148, 78, 95,
            ],
        ),
        (
            vec![
                0x68, 0x65, 0x6C, 0x6C, 0x6F,
            ],
            vec![
                130, 133, 10, 241, 34, 51, 98, 148, 78, 95, 101,
            ],
        ),
        (
            vec![
                104, 101, 108, 108, 111, 32, 119, 111, 114, 108, 100,
            ],
            vec![
                130, 139, 10, 241, 34, 51, 98, 148, 78, 95, 101, 209, 85, 92, 120, 157, 70,
            ],
        ),
        (
            vec![
                108, 111, 114, 101, 109, 32, 105, 112, 115, 117, 109, 32, 100, 111, 108, 111,
            ],
            vec![
                130, 144, 10, 241, 34, 51, 102, 158, 80, 86, 103, 209, 75, 67, 121, 132, 79, 19,
                110, 158, 78, 92,
            ],
        ),
        (
            vec![
                108, 111, 114, 101, 109, 32, 105, 112, 115, 117, 109, 32, 100, 111, 108, 111, 114,
            ],
            vec![
                130, 145, 10, 241, 34, 51, 102, 158, 80, 86, 103, 209, 75, 67, 121, 132, 79, 19,
                110, 158, 78, 92, 120,
            ],
        ),
        (
            vec![
                76, 111, 114, 101, 109, 32, 105, 112, 115, 117, 109, 32, 100, 111, 108, 111, 114,
                32, 115, 105, 116, 32, 97, 109, 101, 116, 44, 32, 99, 111, 110, 115, 101, 99, 116,
                101, 116, 117, 114, 32, 97, 100, 105, 112, 105, 115, 99, 105, 110, 103, 32, 101,
                108, 105, 116, 44, 32, 115, 101, 100, 32, 100, 111, 32, 101, 105, 117, 115, 109,
                111, 100, 32, 116, 101, 109, 112, 111, 114, 32, 105, 110, 99, 105, 100, 105, 100,
                117, 110, 116, 32, 117, 116, 32, 108, 97, 98, 111, 114, 101, 32, 101, 116, 32, 100,
                111, 108, 111, 114, 101, 32, 109, 97, 103, 110, 97, 32, 97, 108, 105, 113, 117, 97,
                46, 32, 85,
            ],
            vec![
                130, 253, 10, 241, 34, 51, 70, 158, 80, 86, 103, 209, 75, 67, 121, 132, 79, 19,
                110, 158, 78, 92, 120, 209, 81, 90, 126, 209, 67, 94, 111, 133, 14, 19, 105, 158,
                76, 64, 111, 146, 86, 86, 126, 132, 80, 19, 107, 149, 75, 67, 99, 130, 65, 90, 100,
                150, 2, 86, 102, 152, 86, 31, 42, 130, 71, 87, 42, 149, 77, 19, 111, 152, 87, 64,
                103, 158, 70, 19, 126, 148, 79, 67, 101, 131, 2, 90, 100, 146, 75, 87, 99, 149, 87,
                93, 126, 209, 87, 71, 42, 157, 67, 81, 101, 131, 71, 19, 111, 133, 2, 87, 101, 157,
                77, 65, 111, 209, 79, 82, 109, 159, 67, 19, 107, 157, 75, 66, 127, 144, 12, 19, 95,
            ],
        ),
    ];
    for (mut input, expected) in cases {
        let frame = Frame { fin: true, opcode: Opcode::Binary };
        input.resize(input.len() + Frame::CONTROL_HEADER_LEN, 0);
        frame.encode_control_slice(&mut input, MASK);
        assert_eq!(input, expected);
    }
}

#[test]
fn test_encode_vec() {
    let cases: Vec<(Vec<u8>, Vec<u8>)> = vec![
        (
            vec![
                0x68, 0x65, 0x6C, 0x6C, 0x6F,
            ],
            vec![
                130, 133, 10, 241, 34, 51, 98, 148, 78, 95, 101,
            ],
        ),
        (
            vec![
                108, 111, 114, 101, 109, 32, 105, 112, 115, 117, 109, 32, 100, 111, 108, 111,
            ],
            vec![
                130, 144, 10, 241, 34, 51, 102, 158, 80, 86, 103, 209, 75, 67, 121, 132, 79, 19,
                110, 158, 78, 92,
            ],
        ),
        (
            vec![
                108, 111, 114, 101, 109, 32, 105, 112, 115, 117, 109, 32, 100, 111, 108, 111, 114,
            ],
            vec![
                130, 145, 10, 241, 34, 51, 102, 158, 80, 86, 103, 209, 75, 67, 121, 132, 79, 19,
                110, 158, 78, 92, 120,
            ],
        ),
        (
            vec![
                76, 111, 114, 101, 109, 32, 105, 112, 115, 117, 109, 32, 100, 111, 108, 111, 114,
                32, 115, 105, 116, 32, 97, 109, 101, 116, 44, 32, 99, 111, 110, 115, 101, 99, 116,
                101, 116, 117, 114, 32, 97, 100, 105, 112, 105, 115, 99, 105, 110, 103, 32, 101,
                108, 105, 116, 44, 32, 115, 101, 100, 32, 100, 111, 32, 101, 105, 117, 115, 109,
                111, 100, 32, 116, 101, 109, 112, 111, 114, 32, 105, 110, 99, 105, 100, 105, 100,
                117, 110, 116, 32, 117, 116, 32, 108, 97, 98, 111, 114, 101, 32, 101, 116, 32, 100,
                111, 108, 111, 114, 101, 32, 109, 97, 103, 110, 97, 32, 97, 108, 105, 113, 117, 97,
                46, 32, 85,
            ],
            vec![
                130, 253, 10, 241, 34, 51, 70, 158, 80, 86, 103, 209, 75, 67, 121, 132, 79, 19,
                110, 158, 78, 92, 120, 209, 81, 90, 126, 209, 67, 94, 111, 133, 14, 19, 105, 158,
                76, 64, 111, 146, 86, 86, 126, 132, 80, 19, 107, 149, 75, 67, 99, 130, 65, 90, 100,
                150, 2, 86, 102, 152, 86, 31, 42, 130, 71, 87, 42, 149, 77, 19, 111, 152, 87, 64,
                103, 158, 70, 19, 126, 148, 79, 67, 101, 131, 2, 90, 100, 146, 75, 87, 99, 149, 87,
                93, 126, 209, 87, 71, 42, 157, 67, 81, 101, 131, 71, 19, 111, 133, 2, 87, 101, 157,
                77, 65, 111, 209, 79, 82, 109, 159, 67, 19, 107, 157, 75, 66, 127, 144, 12, 19, 95,
            ],
        ),
        (
            vec![
                76, 111, 114, 101, 109, 32, 105, 112, 115, 117, 109, 32, 100, 111, 108, 111, 114,
                32, 115, 105, 116, 32, 97, 109, 101, 116, 44, 32, 99, 111, 110, 115, 101, 99, 116,
                101, 116, 117, 114, 32, 97, 100, 105, 112, 105, 115, 99, 105, 110, 103, 32, 101,
                108, 105, 116, 44, 32, 115, 101, 100, 32, 100, 111, 32, 101, 105, 117, 115, 109,
                111, 100, 32, 116, 101, 109, 112, 111, 114, 32, 105, 110, 99, 105, 100, 105, 100,
                117, 110, 116, 32, 117, 116, 32, 108, 97, 98, 111, 114, 101, 32, 101, 116, 32, 100,
                111, 108, 111, 114, 101, 32, 109, 97, 103, 110, 97, 32, 97, 108, 105, 113, 117, 97,
                46, 32, 85, 116,
            ],
            vec![
                130, 254, 0, 126, 10, 241, 34, 51, 70, 158, 80, 86, 103, 209, 75, 67, 121, 132, 79,
                19, 110, 158, 78, 92, 120, 209, 81, 90, 126, 209, 67, 94, 111, 133, 14, 19, 105,
                158, 76, 64, 111, 146, 86, 86, 126, 132, 80, 19, 107, 149, 75, 67, 99, 130, 65, 90,
                100, 150, 2, 86, 102, 152, 86, 31, 42, 130, 71, 87, 42, 149, 77, 19, 111, 152, 87,
                64, 103, 158, 70, 19, 126, 148, 79, 67, 101, 131, 2, 90, 100, 146, 75, 87, 99, 149,
                87, 93, 126, 209, 87, 71, 42, 157, 67, 81, 101, 131, 71, 19, 111, 133, 2, 87, 101,
                157, 77, 65, 111, 209, 79, 82, 109, 159, 67, 19, 107, 157, 75, 66, 127, 144, 12,
                19, 95, 133,
            ],
        ),
    ];
    for (mut input, expected) in cases {
        let frame = Frame { fin: true, opcode: Opcode::Binary };
        frame.encode_vec(&mut input, MASK);
        assert_eq!(input, expected);
    }
}

#[test]
fn test_valid_utf8() {
    let cases: Vec<(&[u8], &str)> = vec![
        (&[], ""),
        (b"Hello, world!", "Hello, world!"),
        (&[0xC3, 0xA9], "\u{e9}"),
        (&[0xE2, 0x82, 0xAC], "\u{20ac}"),
        (&[0xF0, 0x9F, 0xA6, 0x80], "\u{1f980}"),
        (
            b"Hello \xC3\xA9\xE2\x82\xAC\xF0\x9F\xA6\x80!",
            "Hello \u{e9}\u{20ac}\u{1f980}!",
        ),
        (&[0xF4, 0x8F, 0xBF, 0xBF], "\u{10FFFF}"),
        (&[0xEF, 0xBF, 0xBF], "\u{FFFF}"),
    ];
    for (input, expected) in cases {
        assert_eq!(Frame::validate_utf8(input), Some(expected));
    }
}

#[test]
fn test_invalid_utf8() {
    let cases: Vec<&[u8]> = vec![
        &[0x80],
        &[0xFF],
        &[0xC3],
        &[0xE2, 0x82],
        &[0xF0, 0x9F, 0xA6],
        &[0xC1, 0x81],
        &[0xED, 0xA0, 0x80],
        &[0xF5, 0x90, 0x80, 0x80],
        b"Hello \xC3\xA9\xFF",
        &[0xF4, 0x90, 0x80, 0x80],
    ];
    for input in cases {
        assert_eq!(Frame::validate_utf8(input), None);
    }
}

#[test]
fn message_kinds_are_told_apart() {
    assert!(Message::Binary.is_binary());
    assert!(!Message::Binary.is_text());
    assert!(Message::Text.is_text());
    assert!(!Message::Text.is_binary());
}

/// The payload of a frame that a client sent, read as a server does.
fn unmask(bytes: &[u8]) -> Vec<u8> {
    let at = match bytes[1] & 0x7F {
        126 => 4,
        127 => 10,
        _ => 2,
    };
    let key = &bytes[at..at + 4];
    bytes[at + 4..].iter().enumerate().map(|(i, b)| b ^ key[i % 4]).collect()
}

#[test]
fn masking_twice_gives_the_payload_back() {
    for len in [0usize, 1, 3, 4, 15, 16, 17, 125, 126, 1000, 65535, 65536, 70000] {
        let payload: Vec<u8> = (0..len).map(|i| (i * 7 % 251) as u8).collect();
        let mut bytes = payload.clone();
        Frame { fin: true, opcode: Opcode::Binary }.encode_vec(&mut bytes, MASK);
        assert_eq!(unmask(&bytes), payload);
    }
}

#[test]
fn length_is_spelled_in_two_or_eight_bytes() {
    let frame = Frame { fin: false, opcode: Opcode::Continuation };
    let mut bytes = vec![0u8; 65535];
    frame.encode_vec(&mut bytes, [0; 4]);
    assert_eq!(&bytes[..8], &[0x00, 0xFE, 0xFF, 0xFF, 0, 0, 0, 0]);
    assert_eq!(bytes.len(), 65535 + 8);

    let mut bytes = vec![0u8; 65536];
    frame.encode_vec(&mut bytes, [0; 4]);
    assert_eq!(&bytes[..14], &[0x00, 0xFF, 0, 0, 0, 0, 0, 1, 0, 0, 0, 0, 0, 0]);
    assert_eq!(bytes.len(), 65536 + Frame::MAX_HEADER_LEN);
}

#[test]
fn destination_is_overwritten() {
    let frame = Frame { fin: true, opcode: Opcode::Text };
    let mut dst = vec![1, 2, 3, 4, 5, 6, 7, 8, 9, 10, 11, 12];
    frame.encode(b"hello", &mut dst, MASK);
    assert_eq!(dst, vec![129, 133, 10, 241, 34, 51, 98, 148, 78, 95, 101]);
    let mut dst = vec![9; 3];
    frame.encode_control(b"hello", &mut dst, MASK);
    assert_eq!(dst, vec![129, 133, 10, 241, 34, 51, 98, 148, 78, 95, 101]);
}

#[test]
fn both_encodings_of_a_control_frame_agree() {
    for len in [0usize, 1, 124, 125] {
        let payload = vec![0x5A; len];
        let frame = Frame { fin: true, opcode: Opcode::Ping };
        let mut plain = Vec::new();
        let mut control = Vec::new();
        frame.encode(&payload, &mut plain, MASK);
        frame.encode_control(&payload, &mut control, MASK);
        assert_eq!(plain, control);
    }
}

#[test]
fn control_length_of_126_garbles_the_length_byte() {
    let frame = Frame { fin: true, opcode: Opcode::Ping };
    let mut control = Vec::new();
    frame.encode_control(&[0; 126], &mut control, [0; 4]);
    assert_eq!(control[1], 0xFE);
    assert_eq!(control.len(), 132);
}
