use monoio_ws::message::Turn;
use monoio_ws::protocol::{
    answer, check_close, protocol_error, read_close, read_header, Answer, Violation,
};
use monoio_ws::{CloseCode, Frame, Message, Opcode, PartialMessage};

fn frame(fin: bool, opcode: Opcode) -> Frame {
    Frame { fin, opcode }
}

#[test]
fn headers_in_order_are_read() {
    assert_eq!(read_header(0x81, 0x05), Ok((frame(true, Opcode::Text), 5)));
    assert_eq!(read_header(0x02, 0x7E), Ok((frame(false, Opcode::Binary), 126)));
    assert_eq!(read_header(0x80, 0x7F), Ok((frame(true, Opcode::Continuation), 127)));
    assert_eq!(read_header(0x88, 0x00), Ok((frame(true, Opcode::Close), 0)));
    assert_eq!(read_header(0x88, 0x7D), Ok((frame(true, Opcode::Close), 125)));
    assert_eq!(read_header(0x89, 0x01), Ok((frame(true, Opcode::Ping), 1)));
}

#[test]
fn headers_that_break_a_rule_are_refused() {
    for first in [0xC1u8, 0xA1, 0x91, 0xF1] {
        assert_eq!(read_header(first, 0x85), Err(Violation::ReservedBit));
    }
    assert_eq!(read_header(0x81, 0x85), Err(Violation::Masked));
    for number in [0x3u8, 0x4, 0x5, 0x6, 0x7, 0xB, 0xC, 0xD, 0xE, 0xF] {
        assert_eq!(read_header(0x80 | number, 0x01), Err(Violation::ReservedOpcode));
    }
    assert_eq!(read_header(0x08, 0x01), Err(Violation::HalfCloseCode));
    assert_eq!(read_header(0x08, 0x7E), Err(Violation::LongControl));
    assert_eq!(read_header(0x89, 0x7F), Err(Violation::LongControl));
    assert_eq!(read_header(0x08, 0x02), Err(Violation::FragmentedControl));
    assert_eq!(read_header(0x0A, 0x00), Err(Violation::FragmentedControl));
}

#[test]
fn violations_are_put_into_words() {
    let words = [
        (Violation::ReservedBit, "Reserve bit must be 0."),
        (Violation::Masked, "Server to client communication should be unmasked."),
        (Violation::ReservedOpcode, "Use of reserved opcode."),
        (Violation::HalfCloseCode, "Close frame with a missing close reason byte."),
        (Violation::LongControl, "Control frame larger than 125 bytes."),
        (Violation::FragmentedControl, "Control frame cannot be fragmented."),
        (Violation::InvalidCloseCode, "Invalid close code."),
        (Violation::ReservedCloseCode, "Received reserved close code."),
        (
            Violation::InvalidCloseReason,
            "Received close frame with invalid utf-8 reason.",
        ),
        (Violation::InvalidText, "Received text frame with invalid utf-8."),
        (
            Violation::StrayContinuation,
            "Received continuation frame without preceding text or binary frame.",
        ),
        (
            Violation::InterruptedMessage,
            "Received a continuation frame without continuation opcode.",
        ),
    ];
    for (violation, text) in words {
        assert_eq!(violation.reason(), text);
    }
}

#[test]
fn close_payloads_are_checked() {
    assert_eq!(check_close(&[]), None);
    assert_eq!(check_close(&[0x03, 0xE8]), None);
    assert_eq!(check_close(&[0x03, 0xE8, b'o', b'k']), None);
    assert_eq!(check_close(&[0x00, 0x00]), Some(Violation::InvalidCloseCode));
    assert_eq!(check_close(&[0x13, 0x88]), Some(Violation::InvalidCloseCode));
    assert_eq!(check_close(&[0x03, 0xED]), Some(Violation::ReservedCloseCode));
    assert_eq!(check_close(&[0x03, 0xE8, 0xFF]), Some(Violation::InvalidCloseReason));
    assert_eq!(check_close(&[0x03, 0xED, 0xFF]), Some(Violation::ReservedCloseCode));
}

#[test]
fn close_payloads_are_taken_apart() {
    assert_eq!(read_close(&[]), (None, None));
    assert_eq!(read_close(&[0x03, 0xE9]), (Some(CloseCode::GoingAway), None));
    assert_eq!(
        read_close(b"\x0F\xA1bye"),
        (Some(CloseCode::Private(4001)), Some("bye".to_string()))
    );
}

#[test]
fn pings_and_closes_are_answered() {
    assert_eq!(answer(frame(true, Opcode::Ping), b"x"), Answer::Pong);
    assert_eq!(answer(frame(true, Opcode::Pong), b"x"), Answer::Nothing);
    assert_eq!(answer(frame(true, Opcode::Text), b"\xFF"), Answer::Nothing);
    assert_eq!(answer(frame(true, Opcode::Close), &[0x03, 0xE8]), Answer::Close);
    assert_eq!(
        answer(frame(true, Opcode::Close), &[0x03, 0xE7]),
        Answer::Refuse(Violation::InvalidCloseCode)
    );
}

#[test]
fn protocol_errors_are_reported_with_their_code() {
    assert_eq!(protocol_error(), vec![0x03, 0xEA]);
}

#[test]
fn fragments_are_put_together() {
    let mut message = PartialMessage::new(b"old".to_vec());
    assert_eq!(message.take_frame(frame(false, Opcode::Text), b"hel"), Turn::Continue);
    assert_eq!(message.take_frame(frame(true, Opcode::Ping), b"ping"), Turn::Continue);
    assert_eq!(message.take_frame(frame(false, Opcode::Continuation), b"lo "), Turn::Continue);
    assert_eq!(message.take_frame(frame(true, Opcode::Pong), b"pong"), Turn::Continue);
    assert_eq!(
        message.take_frame(frame(true, Opcode::Continuation), b"world"),
        Turn::Complete(Message::Text)
    );
    assert_eq!(message.into_buffer(), b"hello world".to_vec());
}

#[test]
fn characters_may_be_split_between_fragments() {
    let mut message = PartialMessage::fragments();
    assert_eq!(message.take_frame(frame(false, Opcode::Text), &[0xE2, 0x82]), Turn::Continue);
    assert_eq!(
        message.take_frame(frame(true, Opcode::Continuation), &[0xAC]),
        Turn::Complete(Message::Text)
    );
}

#[test]
fn text_that_is_not_utf8_is_refused() {
    let mut message = PartialMessage::new(Vec::new());
    assert_eq!(
        message.take_frame(frame(true, Opcode::Text), &[0xFF]),
        Turn::Refuse(Violation::InvalidText)
    );
    assert_eq!(message.into_buffer(), Vec::<u8>::new());

    let mut message = PartialMessage::new(Vec::new());
    assert_eq!(message.take_frame(frame(false, Opcode::Text), &[0xE2]), Turn::Continue);
    assert_eq!(
        message.take_frame(frame(true, Opcode::Continuation), &[0x28]),
        Turn::Refuse(Violation::InvalidText)
    );
    assert_eq!(message.into_buffer(), vec![0xE2, 0x28]);
}

#[test]
fn binary_messages_hold_any_bytes() {
    let mut message = PartialMessage::new(Vec::new());
    assert_eq!(
        message.take_frame(frame(true, Opcode::Binary), &[0xFF]),
        Turn::Complete(Message::Binary)
    );
    assert_eq!(message.into_buffer(), vec![0xFF]);
}

#[test]
fn continuation_of_nothing_is_refused() {
    let mut message = PartialMessage::new(Vec::new());
    assert_eq!(
        message.take_frame(frame(true, Opcode::Continuation), b"x"),
        Turn::Refuse(Violation::StrayContinuation)
    );
}

#[test]
fn whole_message_must_not_interrupt_a_kept_one() {
    let mut message = PartialMessage::new(Vec::new());
    assert_eq!(message.take_frame(frame(false, Opcode::Binary), b"a"), Turn::Continue);
    assert_eq!(
        message.take_frame(frame(true, Opcode::Text), b"b"),
        Turn::Refuse(Violation::InterruptedMessage)
    );
    assert_eq!(message.into_buffer(), b"a".to_vec());

    let mut message = PartialMessage::fragments();
    assert_eq!(message.take_frame(frame(false, Opcode::Binary), b"a"), Turn::Continue);
    assert_eq!(
        message.take_frame(frame(true, Opcode::Text), b"b"),
        Turn::Complete(Message::Text)
    );
    assert_eq!(message.into_buffer(), b"a".to_vec());
}

#[test]
fn close_frames_end_the_message() {
    let mut message = PartialMessage::new(Vec::new());
    assert_eq!(message.take_frame(frame(true, Opcode::Close), &[]), Turn::Closed);
}
