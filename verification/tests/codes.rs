use monoio_ws::endian::{read_number, write_number};
use monoio_ws::{CloseCode, InvalidCloseCode, Opcode};

#[test]
fn opcodes_and_bytes_belong_together() {
    for number in 0u8..16 {
        for high in [0x00u8, 0x70, 0x80, 0xF0] {
            assert_eq!(Opcode::from_byte(high | number).as_u8(), number);
        }
    }
    assert_eq!(Opcode::from_byte(0x81), Opcode::Text);
    assert_eq!(Opcode::from_byte(0x08), Opcode::Close);
}

#[test]
fn opcodes_fall_into_three_groups() {
    let control = [Opcode::Close, Opcode::Ping, Opcode::Pong];
    let data = [Opcode::Text, Opcode::Binary, Opcode::Continuation];
    for number in 0u8..16 {
        let opcode = Opcode::from_byte(number);
        assert_eq!(opcode.is_control(), control.contains(&opcode));
        assert_eq!(opcode.is_reserved(), !control.contains(&opcode) && !data.contains(&opcode));
    }
}

#[test]
fn close_codes_and_numbers_belong_together() {
    for number in 0u16..=65535 {
        match CloseCode::try_from(number) {
            Ok(code) => {
                assert!((1000..=4999).contains(&number));
                assert_eq!(u16::from(code), number);
            }
            Err(error) => {
                assert!(!(1000..=4999).contains(&number));
                assert_eq!(error, InvalidCloseCode(number));
            }
        }
    }
}

#[test]
fn close_codes_have_their_names() {
    assert_eq!(CloseCode::try_from(1000), Ok(CloseCode::Normal));
    assert_eq!(CloseCode::try_from(1002), Ok(CloseCode::ProtocolError));
    assert_eq!(CloseCode::try_from(1004), Ok(CloseCode::Reserved(1004)));
    assert_eq!(CloseCode::try_from(1015), Ok(CloseCode::TlsHandshake));
    assert_eq!(CloseCode::try_from(3000), Ok(CloseCode::Registered(3000)));
    assert_eq!(CloseCode::try_from(4999), Ok(CloseCode::Private(4999)));
}

#[test]
fn codes_that_are_not_sent_are_reserved() {
    for number in [1004u16, 1005, 1006, 1015, 1016, 2000, 2999] {
        assert!(CloseCode::try_from(number).unwrap().is_reserved());
    }
    for number in [1000u16, 1001, 1002, 1003, 1007, 1011, 1014, 3000, 3999, 4000, 4999] {
        assert!(!CloseCode::try_from(number).unwrap().is_reserved());
    }
}

#[test]
fn numbers_are_read_back() {
    for number in [0u64, 1, 255, 256, 65535, 65536, u64::MAX] {
        let mut bytes = [0xAAu8; 10];
        write_number(&mut bytes, 1, 8, number);
        assert_eq!(&bytes[1..9], &number.to_be_bytes());
        assert_eq!((bytes[0], bytes[9]), (0xAA, 0xAA));
        assert_eq!(read_number(&bytes[1..9]), number);
    }
    assert_eq!(read_number(&[]), 0);
    assert_eq!(read_number(&[0x03, 0xEA]), 1002);
}
