use monoio_ws::client::{sent, Decoding, MessageStep, OwnedFrame, ReadHalf, ReadStep};
use monoio_ws::{
    Client, ClientError, CloseCode, Config, Frame, IoError, Message, Opcode, PartialMessage,
};

/// A frame as a server sends it.
fn server(first: u8, payload: &[u8]) -> Vec<u8> {
    let mut bytes = vec![first];
    match payload.len() {
        len @ 0..=125 => bytes.push(len as u8),
        len @ 126..=65535 => {
            bytes.push(126);
            bytes.extend_from_slice(&(len as u16).to_be_bytes());
        }
        len => {
            bytes.push(127);
            bytes.extend_from_slice(&(len as u64).to_be_bytes());
        }
    }
    bytes.extend_from_slice(payload);
    bytes
}

/// First byte and payload of a short frame that a client sent.
fn read_sent(bytes: &[u8]) -> (u8, Vec<u8>) {
    assert_eq!(bytes[1] & 0x80, 0x80);
    assert_eq!((bytes[1] & 0x7F) as usize, bytes.len() - 6);
    let key = &bytes[2..6];
    (bytes[0], bytes[6..].iter().enumerate().map(|(i, b)| b ^ key[i % 4]).collect())
}

fn client() -> Client {
    Client::new(&Config::default())
}

fn fed(bytes: &[u8]) -> Client {
    let mut client = client();
    assert!(client.received(bytes).is_ok());
    client
}

fn done(step: ReadStep) -> (Frame, Vec<u8>) {
    match step {
        ReadStep::Done(OwnedFrame { frame, data }) => (frame, data),
        other => panic!("no frame: {other:?}"),
    }
}

fn refusal(step: ReadStep) -> &'static str {
    match step {
        ReadStep::Send { bytes, outcome: Err(ClientError::ProtocolViolation(reason)) } => {
            assert_eq!(read_sent(&bytes), (0x88, vec![0x03, 0xEA]));
            reason
        }
        other => panic!("no refusal: {other:?}"),
    }
}

#[test]
fn buffers_have_their_default_sizes() {
    let config = Config::default();
    assert_eq!(config.read_buffer_capacity, 131072);
    assert_eq!(config.write_buffer_capacity, 131072);
}

#[test]
fn short_frames_are_read_back() {
    for len in [0usize, 1, 2, 124, 125] {
        let payload: Vec<u8> = (0..len).map(|i| i as u8).collect();
        let mut bytes = server(0x82, &payload);
        bytes.extend_from_slice(b"rest");
        let mut client = fed(&bytes);
        let (frame, data) = done(client.read_frame());
        assert_eq!(frame, Frame { fin: true, opcode: Opcode::Binary });
        assert_eq!(data, payload);
        assert_eq!(client.unread_len(), 4);
    }
}

#[test]
fn frames_are_the_same_however_they_arrive() {
    let bytes = server(0x01, b"hello");
    let mut client = client();
    for byte in &bytes[..bytes.len() - 1] {
        assert!(matches!(client.read_frame(), ReadStep::Read(4096)));
        assert!(client.received(&[*byte]).is_ok());
    }
    assert!(matches!(client.read_frame(), ReadStep::Read(4096)));
    assert!(client.received(&bytes[bytes.len() - 1..]).is_ok());
    let (frame, data) = done(client.read_frame());
    assert_eq!(frame, Frame { fin: false, opcode: Opcode::Text });
    assert_eq!(data, b"hello".to_vec());
    assert_eq!(client.unread_len(), 0);
}

#[test]
fn large_reads_ask_for_all_that_is_missing() {
    let client_header = [0x82, 127, 0, 0, 0, 0, 0, 1, 0, 0];
    let mut client = fed(&client_header);
    assert!(client.length_fits());
    assert!(matches!(client.read_frame(), ReadStep::Read(65528)));
}

#[test]
fn longer_frames_are_read_from_behind_the_two_byte_header() {
    let payload = vec![7u8; 200];
    let mut client = fed(&server(0x82, &payload));
    let (_, data) = done(client.read_frame());
    assert_eq!(data.len(), 200);
    assert_eq!(&data[..3], &[0, 200, 7]);
    assert_eq!(client.unread_len(), 2);
}

#[test]
fn lengths_that_cannot_be_counted_are_found_out() {
    let client = fed(&[0x82, 127, 255, 255, 255, 255, 255, 255, 255, 255]);
    assert!(!client.length_fits());
    let client = fed(&[0x82, 127, 255, 255, 255, 255, 255, 255, 255]);
    assert!(client.length_fits());
}

#[test]
fn end_of_stream_is_an_error() {
    let mut client = client();
    assert!(matches!(
        client.received(&[]),
        Err(ClientError::Io(IoError::UnexpectedEof))
    ));
}

#[test]
fn pings_are_answered_with_the_same_payload() {
    let mut client = fed(&server(0x89, b"are you there"));
    match client.read_frame() {
        ReadStep::Send { bytes, outcome: Ok(read) } => {
            assert_eq!(read_sent(&bytes), (0x8A, b"are you there".to_vec()));
            assert_eq!(read.frame.opcode, Opcode::Ping);
            assert_eq!(read.data, b"are you there".to_vec());
        }
        other => panic!("no pong: {other:?}"),
    }
}

#[test]
fn closes_are_answered_with_the_same_payload() {
    let mut client = fed(&server(0x88, b"\x03\xE8bye"));
    match client.read_frame() {
        ReadStep::Send { bytes, outcome: Ok(read) } => {
            assert_eq!(read_sent(&bytes), (0x88, b"\x03\xE8bye".to_vec()));
            assert_eq!(read.frame.opcode, Opcode::Close);
        }
        other => panic!("no close: {other:?}"),
    }
}

#[test]
fn violations_are_answered_with_a_close_frame() {
    let mut client = fed(&[0xC1, 0x00]);
    assert_eq!(refusal(client.read_frame()), "Reserve bit must be 0.");
    assert_eq!(client.unread_len(), 2);

    let mut client = fed(&server(0x88, &[0x03, 0xE7]));
    assert_eq!(refusal(client.read_frame()), "Invalid close code.");
    assert_eq!(client.unread_len(), 0);

    let mut client = fed(&server(0x88, &[0x03, 0xED]));
    assert_eq!(refusal(client.read_frame()), "Received reserved close code.");

    let mut client = fed(&server(0x88, &[0x03, 0xE8, 0xFF]));
    assert_eq!(
        refusal(client.read_frame()),
        "Received close frame with invalid utf-8 reason."
    );
}

#[test]
fn failed_write_takes_the_place_of_the_outcome() {
    let failure = std::io::Error::new(std::io::ErrorKind::BrokenPipe, "gone");
    assert!(matches!(
        sent(Err(failure), Ok(1u8)),
        Err(ClientError::Io(IoError::Stream(e))) if e.kind() == std::io::ErrorKind::BrokenPipe
    ));
    assert!(matches!(sent(Ok(()), Ok(1u8)), Ok(1)));
    assert!(matches!(
        sent::<u8>(Ok(()), Err(ClientError::ProtocolViolation("x"))),
        Err(ClientError::ProtocolViolation("x"))
    ));
}

fn owned(first: u8, data: &[u8]) -> OwnedFrame {
    OwnedFrame {
        frame: Frame { fin: first >= 128, opcode: Opcode::from_byte(first) },
        data: data.to_vec(),
    }
}

#[test]
fn messages_are_read_frame_by_frame() {
    let mut client = client();
    let mut message = PartialMessage::new(Vec::new());
    assert!(matches!(
        client.next_msg(&mut message, &owned(0x02, b"ab")),
        MessageStep::ReadFrame
    ));
    assert!(matches!(
        client.next_msg(&mut message, &owned(0x8A, b"")),
        MessageStep::ReadFrame
    ));
    assert!(matches!(
        client.next_msg(&mut message, &owned(0x80, b"cd")),
        MessageStep::Done(Ok(Message::Binary))
    ));
    assert_eq!(message.into_buffer(), b"abcd".to_vec());
}

#[test]
fn broken_messages_are_answered_with_a_close_frame() {
    let mut client = client();
    let mut message = PartialMessage::new(Vec::new());
    match client.next_msg(&mut message, &owned(0x80, b"x")) {
        MessageStep::Send { bytes, outcome: Err(ClientError::ProtocolViolation(reason)) } => {
            assert_eq!(read_sent(&bytes), (0x88, vec![0x03, 0xEA]));
            assert_eq!(
                reason,
                "Received continuation frame without preceding text or binary frame."
            );
        }
        other => panic!("no refusal: {other:?}"),
    }
}

#[test]
fn closed_connections_say_why() {
    let mut client = client();
    let mut message = PartialMessage::new(Vec::new());
    match client.next_msg(&mut message, &owned(0x88, b"\x03\xE9later")) {
        MessageStep::Done(Err(ClientError::Closed { code, reason })) => {
            assert_eq!(code, Some(CloseCode::GoingAway));
            assert_eq!(reason, Some("later".to_string()));
        }
        other => panic!("not closed: {other:?}"),
    }
    match client.next_msg(&mut message, &owned(0x88, b"")) {
        MessageStep::Done(Err(ClientError::Closed { code: None, reason: None })) => {}
        other => panic!("not closed: {other:?}"),
    }
}

#[test]
fn frames_are_sent_with_their_opcodes() {
    let mut client = client();
    let bytes = client.send_ping(b"p");
    assert_eq!(read_sent(&bytes), (0x89, b"p".to_vec()));
    client.written(bytes);
    assert_eq!(read_sent(&client.send_pong(b"q")), (0x8A, b"q".to_vec()));
    assert_eq!(read_sent(&client.send_binary(b"b")), (0x82, b"b".to_vec()));
    assert_eq!(read_sent(&client.send_text(b"t")), (0x81, b"t".to_vec()));
    assert_eq!(read_sent(&client.send_close(b"c")), (0x81, b"c".to_vec()));
    let close = Frame { fin: true, opcode: Opcode::Close };
    assert_eq!(read_sent(&client.write_frame(close, b"c")), (0x88, b"c".to_vec()));
}

#[test]
fn masking_keys_differ_from_frame_to_frame() {
    let mut client = client();
    let keys: Vec<Vec<u8>> = (0..8).map(|_| client.send_ping(b"")[2..6].to_vec()).collect();
    assert!(keys.iter().any(|key| key != &keys[0]));
}

#[test]
fn reads_ask_for_a_chunk_or_for_all_that_is_missing() {
    let mut half = ReadHalf::with_capacity(64);
    assert!(half.received(&[0x81; 10]).is_ok());
    assert_eq!(half.ensure_read(10), None);
    assert_eq!(half.ensure_read(11), Some(4096));
    assert_eq!(half.ensure_read(5010), Some(5000));
}

#[test]
fn making_room_loses_nothing() {
    let mut client = fed(b"\x81\x02hi");
    assert!(client.begin_frame() >= 131072);
    assert_eq!(client.unread_len(), 4);

    let config = Config { read_buffer_capacity: 16, write_buffer_capacity: 16 };
    let mut client = Client::new(&config);
    assert!(client.received(&[0x8A, 0, 0x81, 12, 1, 2, 3, 4, 5, 6, 7, 8, 9, 10, 11, 12]).is_ok());
    assert_eq!(done(client.read_frame()).0.opcode, Opcode::Pong);
    assert!(client.begin_frame() >= 14);
    let (frame, data) = done(client.read_frame());
    assert_eq!(frame.opcode, Opcode::Text);
    assert_eq!(data, vec![1, 2, 3, 4, 5, 6, 7, 8, 9, 10, 11, 12]);
}

#[test]
fn second_frame_of_a_read_survives_a_small_buffer() {
    let config = Config { read_buffer_capacity: 4, write_buffer_capacity: 4 };
    let mut client = Client::new(&config);
    client.begin_frame();
    assert!(matches!(client.read_frame(), ReadStep::Read(4096)));
    assert!(client.received(&[0x81, 0x01, 0x61, 0x81, 0x01, 0x62]).is_ok());
    let text = Frame { fin: true, opcode: Opcode::Text };
    assert_eq!(done(client.read_frame()), (text, vec![0x61]));
    client.begin_frame();
    assert_eq!(done(client.read_frame()), (text, vec![0x62]));
    assert!(matches!(
        client.received(&[]),
        Err(ClientError::Io(IoError::UnexpectedEof))
    ));
}

#[test]
fn long_streams_pass_through_a_small_buffer() {
    let config = Config { read_buffer_capacity: 8, write_buffer_capacity: 8 };
    for cut in [1usize, 7, 100, 5000] {
        let mut client = Client::new(&config);
        let sent: Vec<Vec<u8>> = (0..200usize).map(|i| vec![i as u8; i % 126]).collect();
        let wire: Vec<u8> = sent.iter().flat_map(|data| server(0x82, data)).collect();
        let mut pieces = wire.chunks(cut);
        for data in &sent {
            client.begin_frame();
            let read = loop {
                match client.read_frame() {
                    ReadStep::Read(_) => {
                        assert!(client.received(pieces.next().unwrap()).is_ok());
                    }
                    step => break done(step),
                }
            };
            assert_eq!(&read.1, data);
        }
        assert!(pieces.next().is_none());
        assert_eq!(client.unread_len(), 0);
    }
}

#[test]
fn frames_are_taken_out_of_the_bytes() {
    let mut half = ReadHalf::with_capacity(64);
    assert!(matches!(half.read_frame_inner(), Decoding::NeedMore(2)));
    assert!(half.received(&[0x82, 126]).is_ok());
    assert!(matches!(half.read_frame_inner(), Decoding::NeedMore(4)));
    assert!(half.received(&[0, 3]).is_ok());
    assert!(half.length_fits());
    assert!(matches!(half.read_frame_inner(), Decoding::NeedMore(5)));
}

#[test]
fn frames_follow_one_another() {
    let mut bytes = server(0x01, b"a");
    bytes.extend_from_slice(&server(0x80, b"b"));
    bytes.extend_from_slice(&server(0x82, b""));
    let mut client = fed(&bytes);
    assert_eq!(done(client.read_frame()).1, b"a".to_vec());
    assert_eq!(done(client.read_frame()).1, b"b".to_vec());
    let (frame, data) = done(client.read_frame());
    assert_eq!((frame.opcode, data), (Opcode::Binary, Vec::new()));
    assert!(matches!(client.read_frame(), ReadStep::Read(4096)));
}

/// Reads a message out of bytes that have all arrived, and collects what is sent.
fn converse(bytes: &[u8]) -> (Vec<(u8, Vec<u8>)>, Result<Message, ClientError>, Vec<u8>) {
    let mut client = fed(bytes);
    let mut message = PartialMessage::new(Vec::new());
    let mut written = Vec::new();
    loop {
        client.begin_frame();
        let outcome = match client.read_frame() {
            ReadStep::Read(n) => panic!("short of {n} bytes"),
            ReadStep::Send { bytes, outcome } => {
                written.push(read_sent(&bytes));
                outcome
            }
            ReadStep::Done(frame) => Ok(frame),
        };
        let result = match outcome {
            Ok(frame) => match client.next_msg(&mut message, &frame) {
                MessageStep::ReadFrame => continue,
                MessageStep::Send { bytes, outcome } => {
                    written.push(read_sent(&bytes));
                    outcome
                }
                MessageStep::Done(result) => result,
            },
            Err(error) => Err(error),
        };
        return (written, result, message.into_buffer());
    }
}

#[test]
fn whole_messages_are_answered_with_pongs_and_one_farewell() {
    let mut opening = server(0x89, b"1");
    opening.extend_from_slice(&server(0x01, b"he"));
    opening.extend_from_slice(&server(0x89, b"2"));
    let pongs = vec![(0x8A, b"1".to_vec()), (0x8A, b"2".to_vec())];

    let (written, result, data) = converse(&[&opening[..], &server(0x80, b"y")].concat());
    assert_eq!(written, pongs);
    assert!(matches!(result, Ok(Message::Text)));
    assert_eq!(data, b"hey".to_vec());

    let report = (0x88, vec![0x03, 0xEA]);
    for ending in [server(0x80, &[0xFF]), server(0x82, b"x"), vec![0x83, 0], server(0x88, &[0, 1])]
    {
        let (written, result, _) = converse(&[&opening[..], &ending].concat());
        assert_eq!(written, [&pongs[..], &[report.clone()]].concat());
        assert!(matches!(result, Err(ClientError::ProtocolViolation(_))));
    }

    let (written, result, _) = converse(&[&opening[..], &server(0x88, b"\x03\xE8z")].concat());
    assert_eq!(written, [&pongs[..], &[(0x88, b"\x03\xE8z".to_vec())]].concat());
    assert!(matches!(result, Err(ClientError::Closed { code: Some(CloseCode::Normal), .. })));
}
