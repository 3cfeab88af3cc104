use monoio_ws::zero_copy::{sent, ArenaFrame, Found, MessageStep, Progress, ReadStep, Stage};
use monoio_ws::{
    Arena, CloseCode, Endpoint, Frame, IoError, Message, Opcode, PartialMessage, ZeroCopyClient,
    ZeroCopyConfig, ZeroCopyError,
};

/// A frame as a server sends it.
fn from_server(first: u8, payload: &[u8]) -> Vec<u8> {
    let mut bytes = vec![first];
    match payload.len() {
        len @ 0..=125 => bytes.push(len as u8),
        len @ 126..=65535 => {
            bytes.push(126);
            bytes.extend_from_slice(&(len as u16).to_be_bytes());
        }
        len => {
            bytes.push(127);
            bytes.extend_from_slice(&(len as u64).to_be_bytes());
        }
    }
    bytes.extend_from_slice(payload);
    bytes
}

/// First byte and payload of a short frame that a client sent.
fn by_client(bytes: &[u8]) -> (u8, Vec<u8>) {
    assert_eq!(bytes[1] & 0x80, 0x80);
    assert_eq!((bytes[1] & 0x7F) as usize, bytes.len() - 6);
    let key = &bytes[2..6];
    (bytes[0], bytes[6..].iter().enumerate().map(|(i, b)| b ^ key[i % 4]).collect())
}

fn feed(client: &mut ZeroCopyClient, bytes: &[u8]) {
    let mut buffer = client.read_half.lend();
    buffer.extend_from_slice(bytes);
    assert!(buffer.len() >= client.read_half.taken_len());
    client.read_half.restore(buffer);
}

fn with(bytes: &[u8]) -> ZeroCopyClient {
    let mut client = ZeroCopyClient::new(&ZeroCopyConfig::default());
    feed(&mut client, bytes);
    client
}

/// Takes steps until nothing more can be done with what has arrived.
fn run(client: &mut ZeroCopyClient, start: Progress) -> (Stage, Progress) {
    let mut progress = start;
    loop {
        assert!(client.read_half.length_fits(progress));
        match client.read_half.read_frame_inner(progress) {
            Stage::Next(next) => progress = next,
            stage => return (stage, progress),
        }
    }
}

fn find(client: &mut ZeroCopyClient) -> Found {
    match run(client, Progress::Start).0 {
        Stage::Found(found) => found,
        other => panic!("nothing found: {other:?}"),
    }
}

#[test]
fn test_zero_copy_client_creation() {
    let config = ZeroCopyConfig::default();
    assert_eq!(config.read_buffer_capacity, 131072);
    assert_eq!(config.write_buffer_capacity, 131072);
    assert_eq!(config.arena_capacity, 1048576);
    assert!(Endpoint::parse("ws://localhost:8080").is_ok());
    let client = ZeroCopyClient::new(&config);
    assert_eq!(client.read_half.unread_len(), 0);
}

#[test]
fn frames_of_any_length_are_read_back() {
    for len in [0usize, 1, 125, 126, 1000, 65535, 65536, 100000] {
        let payload: Vec<u8> = (0..len).map(|i| (i % 253) as u8).collect();
        let mut bytes = from_server(0x82, &payload);
        bytes.extend_from_slice(b"rest");
        let mut client = with(&bytes);
        let found = find(&mut client);
        let frame = Frame { fin: true, opcode: Opcode::Binary };
        assert_eq!(found, Found::Ready { frame, length: len });
        assert!(Arena::fits(len));
        match client.read_frame(found) {
            ReadStep::Done(read) => {
                assert_eq!(read.frame, frame);
                assert_eq!(read.data, &payload[..]);
            }
            other => panic!("no frame: {other:?}"),
        }
        assert_eq!(client.read_half.unread_len(), 4);
    }
}

#[test]
fn steps_go_on_where_they_stopped() {
    let payload = vec![0x61u8; 300];
    let bytes = from_server(0x81, &payload);
    let mut client = with(&[]);
    let mut progress = Progress::Start;
    for byte in &bytes {
        let (stage, reached) = run(&mut client, progress);
        assert_eq!(stage, Stage::Read);
        progress = reached;
        feed(&mut client, &[*byte]);
    }
    let frame = Frame { fin: true, opcode: Opcode::Text };
    let (stage, _) = run(&mut client, progress);
    assert_eq!(stage, Stage::Found(Found::Ready { frame, length: 300 }));
}

#[test]
fn header_bytes_are_taken_even_where_they_break_a_rule() {
    let mut client = with(&[0x83, 0x00, 0x81]);
    let found = find(&mut client);
    assert_eq!(client.read_half.unread_len(), 1);
    match client.read_frame(found) {
        ReadStep::Send { bytes, outcome: Err(ZeroCopyError::ProtocolViolation(reason)) } => {
            assert_eq!(by_client(&bytes), (0x88, vec![0x03, 0xEA]));
            assert_eq!(reason, "Use of reserved opcode.");
        }
        other => panic!("no refusal: {other:?}"),
    }
}

#[test]
fn pings_and_closes_get_their_payload_back() {
    let mut client = with(&from_server(0x89, b"ping"));
    let found = find(&mut client);
    match client.read_frame(found) {
        ReadStep::Send { bytes, outcome: Ok(read) } => {
            assert_eq!(by_client(&bytes), (0x8A, b"ping".to_vec()));
            assert_eq!(read.data, b"ping");
        }
        other => panic!("no pong: {other:?}"),
    }

    let mut client = with(&from_server(0x88, b"\x03\xE8"));
    let found = find(&mut client);
    match client.read_frame(found) {
        ReadStep::Send { bytes, outcome: Ok(read) } => {
            assert_eq!(by_client(&bytes), (0x88, b"\x03\xE8".to_vec()));
            assert_eq!(read.frame.opcode, Opcode::Close);
        }
        other => panic!("no close: {other:?}"),
    }

    let mut client = with(&from_server(0x88, b"\x03\xEE"));
    let found = find(&mut client);
    match client.read_frame(found) {
        ReadStep::Send { bytes, outcome: Err(ZeroCopyError::ProtocolViolation(reason)) } => {
            assert_eq!(by_client(&bytes), (0x88, vec![0x03, 0xEA]));
            assert_eq!(reason, "Received reserved close code.");
        }
        other => panic!("no refusal: {other:?}"),
    }
}

#[test]
fn compaction_keeps_what_was_not_taken() {
    let mut bytes = from_server(0x81, b"one");
    bytes.extend_from_slice(&from_server(0x81, b"two"));
    let mut client = with(&bytes);
    let found = find(&mut client);
    assert!(matches!(client.read_frame(found), ReadStep::Done(read) if read.data == b"one"));
    assert_eq!(client.read_half.taken_len(), 5);
    client.read_half.compact(4096 + 10);
    assert_eq!(client.read_half.taken_len(), 5);
    client.read_half.compact(4096 + 9);
    assert_eq!(client.read_half.taken_len(), 0);
    let found = find(&mut client);
    assert!(matches!(client.read_frame(found), ReadStep::Done(read) if read.data == b"two"));
}

#[test]
fn full_buffers_are_compacted_at_the_start_of_a_frame() {
    let mut client = with(&vec![0x81; 131072]);
    assert_eq!(run(&mut client, Progress::Start).0, Stage::Found(Found::Refused(
        monoio_ws::protocol::Violation::Masked
    )));
    assert_eq!(client.read_half.taken_len(), 2);
    let capacity = client.read_half.begin_frame();
    assert!((131072..131072 + 4096).contains(&capacity));
    assert_eq!(client.read_half.taken_len(), 0);
    assert_eq!(client.read_half.unread_len(), 131070);
}

#[test]
fn uncountable_lengths_are_found_out() {
    let mut client = with(&[0x82, 127, 255, 255, 255, 255, 255, 255, 255, 255]);
    let frame = Frame { fin: true, opcode: Opcode::Binary };
    assert_eq!(
        client.read_half.read_frame_inner(Progress::Start),
        Stage::Next(Progress::Length { frame, width: 8 })
    );
    let next = Progress::Payload { frame, length: usize::MAX };
    assert_eq!(
        client.read_half.read_frame_inner(Progress::Length { frame, width: 8 }),
        Stage::Next(next)
    );
    assert!(!client.read_half.length_fits(next));
    assert!(!Arena::fits(usize::MAX));
}

#[test]
fn only_the_kind_of_a_message_is_reported() {
    let mut client = with(&[]);
    let mut message = PartialMessage::fragments();
    let opening = ArenaFrame { frame: Frame { fin: false, opcode: Opcode::Text }, data: b"a" };
    let ending =
        ArenaFrame { frame: Frame { fin: true, opcode: Opcode::Continuation }, data: b"b" };
    assert!(matches!(
        ZeroCopyClient::next_msg(&mut client.write_half, &mut message, opening),
        MessageStep::ReadFrame
    ));
    assert!(matches!(
        ZeroCopyClient::next_msg(&mut client.write_half, &mut message, ending),
        MessageStep::Done(Ok(Message::Text))
    ));
}

#[test]
fn broken_text_is_answered_with_a_close_frame() {
    let mut client = with(&[]);
    let mut message = PartialMessage::fragments();
    let text = ArenaFrame { frame: Frame { fin: true, opcode: Opcode::Text }, data: &[0xC3] };
    match ZeroCopyClient::next_msg(&mut client.write_half, &mut message, text) {
        MessageStep::Send { bytes, outcome: Err(ZeroCopyError::ProtocolViolation(reason)) } => {
            assert_eq!(by_client(&bytes), (0x88, vec![0x03, 0xEA]));
            assert_eq!(reason, "Received text frame with invalid utf-8.");
        }
        other => panic!("no refusal: {other:?}"),
    }
}

#[test]
fn close_frames_end_the_reading() {
    let mut client = with(&[]);
    let mut message = PartialMessage::fragments();
    let close =
        ArenaFrame { frame: Frame { fin: true, opcode: Opcode::Close }, data: b"\x0B\xB8so" };
    match ZeroCopyClient::next_msg(&mut client.write_half, &mut message, close) {
        MessageStep::Done(Err(ZeroCopyError::Closed { code, reason })) => {
            assert_eq!(code, Some(CloseCode::Registered(3000)));
            assert_eq!(reason, Some("so".to_string()));
        }
        other => panic!("not closed: {other:?}"),
    }
}

#[test]
fn zero_copy_frames_are_sent_with_their_opcodes() {
    let mut client = with(&[]);
    let bytes = client.send_ping(b"p");
    assert_eq!(by_client(&bytes), (0x89, b"p".to_vec()));
    client.write_half.written(bytes);
    assert_eq!(by_client(&client.send_pong(b"q")), (0x8A, b"q".to_vec()));
    assert_eq!(by_client(&client.send_binary(b"b")), (0x82, b"b".to_vec()));
    assert_eq!(by_client(&client.send_text(b"t")), (0x81, b"t".to_vec()));
    assert_eq!(by_client(&client.send_close(b"c")), (0x88, b"c".to_vec()));
    let part = Frame { fin: false, opcode: Opcode::Continuation };
    assert_eq!(by_client(&client.write_frame(part, b"w")), (0x00, b"w".to_vec()));
}

#[test]
fn failed_zero_copy_write_takes_the_place_of_the_outcome() {
    let failure = std::io::Error::new(std::io::ErrorKind::BrokenPipe, "gone");
    assert!(matches!(
        sent(Err(failure), Ok(1u8)),
        Err(ZeroCopyError::Io(IoError::Stream(e))) if e.kind() == std::io::ErrorKind::BrokenPipe
    ));
    assert!(matches!(sent(Ok(()), Ok(1u8)), Ok(1)));
}

#[test]
fn payloads_outlive_later_frames_until_the_arena_is_reset() {
    let mut client = with(&from_server(0x82, b"abc"));
    let found = find(&mut client);
    assert!(matches!(client.read_frame(found), ReadStep::Done(read) if read.data == b"abc"));
    client.reset_arena();
    feed(&mut client, &from_server(0x82, b"def"));
    let found = find(&mut client);
    assert!(matches!(client.read_frame(found), ReadStep::Done(read) if read.data == b"def"));
}

#[test]
fn arenas_copy_and_fill() {
    let mut arena = Arena::with_capacity(64);
    {
        let data = [1u8, 2, 3];
        let copy = arena.alloc_slice_copy(&data);
        assert_eq!(copy, &data);
        assert_ne!(copy.as_ptr(), data.as_ptr());
        let filled = arena.alloc_slice_fill_copy(5, 9);
        filled[0] = 1;
        assert_eq!(filled, &[1, 9, 9, 9, 9]);
    }
    arena.reset();
    assert_eq!(Arena::default().alloc_slice_copy(&[]).len(), 0);
    assert_eq!(Arena::new().alloc_slice_copy(b"x"), b"x");
}

#[test]
fn frames_are_read_in_order_wherever_the_bytes_are_cut() {
    let sent: Vec<(u8, Vec<u8>)> = vec![
        (0x01, b"one".to_vec()),
        (0x80, vec![0x62; 200]),
        (0x8A, Vec::new()),
        (0x82, vec![0x63; 70000]),
    ];
    let wire: Vec<u8> = sent.iter().flat_map(|(first, data)| from_server(*first, data)).collect();
    for cut in [1usize, 3, 64, 4096, wire.len()] {
        let mut client = with(&[]);
        let mut frames = Vec::new();
        let mut progress = Progress::Start;
        for piece in wire.chunks(cut) {
            feed(&mut client, piece);
            loop {
                let (stage, reached) = run(&mut client, progress);
                progress = reached;
                let Stage::Found(found) = stage else {
                    break;
                };
                progress = Progress::Start;
                match client.read_frame(found) {
                    ReadStep::Done(read) => {
                        let fin = if read.frame.fin { 0x80 } else { 0 };
                        frames.push((fin | read.frame.opcode.as_u8(), read.data.to_vec()));
                    }
                    other => panic!("no frame: {other:?}"),
                }
                client.read_half.begin_frame();
            }
        }
        assert_eq!(frames, sent);
    }
}

#[test]
fn zero_copy_messages_are_answered_with_pongs_and_one_farewell() {
    let frames = [(0x89u8, &b"a"[..]), (0x02, b"x"), (0x89, b"b"), (0x81, &[0xFF])];
    let wire: Vec<u8> = frames.iter().flat_map(|(first, data)| from_server(*first, data)).collect();
    let mut client = with(&wire);
    let mut message = PartialMessage::fragments();
    let mut written = Vec::new();
    let end = loop {
        client.read_half.begin_frame();
        let found = find(&mut client);
        let frame = match client.read_half.read_frame(&mut client.write_half, found) {
            ReadStep::Send { bytes, outcome } => {
                written.push(by_client(&bytes));
                outcome.unwrap()
            }
            ReadStep::Done(frame) => frame,
        };
        match ZeroCopyClient::next_msg(&mut client.write_half, &mut message, frame) {
            MessageStep::ReadFrame => {}
            MessageStep::Send { bytes, outcome } => {
                written.push(by_client(&bytes));
                break outcome;
            }
            MessageStep::Done(result) => break result,
        }
    };
    assert!(matches!(end, Err(ZeroCopyError::ProtocolViolation(_))));
    assert_eq!(
        written,
        vec![
            (0x8A, b"a".to_vec()),
            (0x8A, b"b".to_vec()),
            (0x88, vec![0x03, 0xEA])
        ]
    );
}
