use robot_serial::code::{u8_to_code, MessageCode};
use robot_serial::message::{compare_messages, convert_message, parse_to_message, MsgElem};

fn decode(span: &[u8]) -> Vec<MsgElem> {
    parse_to_message(span).expect("decoding a span always yields a message")
}

#[test]
fn code_table_maps_bytes_both_ways() {
    assert_eq!(u8_to_code(0), Some(MessageCode::MSG_START));
    assert_eq!(u8_to_code(1), Some(MessageCode::FLOAT_AHEAD));
    assert_eq!(u8_to_code(6), Some(MessageCode::PID));
    assert_eq!(u8_to_code(29), Some(MessageCode::NONE));
    assert_eq!(u8_to_code(35), Some(MessageCode::MSG_END));
    assert_eq!(u8_to_code(36), None);
    assert_eq!(u8_to_code(255), None);
    for b in 0u8..36 {
        let c = u8_to_code(b).unwrap();
        assert_eq!(c.to_byte(), b);
    }
}

#[test]
fn element_bytes_are_tag_then_little_endian() {
    assert_eq!(MsgElem::Code(MessageCode::SET).to_u8_vec(), vec![4]);
    assert_eq!(MsgElem::U32(0x0102_0304).to_u8_vec(), vec![2, 4, 3, 2, 1]);
    assert_eq!(MsgElem::I32(-2).to_u8_vec(), vec![3, 0xfe, 0xff, 0xff, 0xff]);
    assert_eq!(MsgElem::F32(1.0f32.to_bits()).to_u8_vec(), vec![1, 0x00, 0x00, 0x80, 0x3f]);
}

#[test]
fn frame_is_delimited_and_unescaped() {
    let frame = convert_message(&[MsgElem::Code(MessageCode::PID), MsgElem::U32(0x0102_0304)]);
    assert_eq!(frame, vec![0, 6, 2, 4, 3, 2, 1, 35]);
    assert_eq!(convert_message(&[]), vec![0, 35]);
    let with_end_in_payload = convert_message(&[MsgElem::U32(35)]);
    assert_eq!(with_end_in_payload, vec![0, 2, 35, 0, 0, 0, 35]);
}

#[test]
fn round_trip_keeps_every_element() {
    let message = vec![
        MsgElem::Code(MessageCode::PID),
        MsgElem::Code(MessageCode::SET),
        MsgElem::F32((-3.25f32).to_bits()),
        MsgElem::F32(f32::NAN.to_bits()),
        MsgElem::U32(u32::MAX),
        MsgElem::I32(i32::MIN),
        MsgElem::I32(-1),
        MsgElem::Code(MessageCode::NONE),
        MsgElem::Code(MessageCode::MSG_END),
    ];
    let frame = convert_message(&message);
    let decoded = decode(&frame[1..frame.len() - 1]);
    assert_eq!(decoded, message);
    let value = match decoded[2] {
        MsgElem::F32(bits) => f32::from_bits(bits),
        _ => panic!("expected a float"),
    };
    assert_eq!(value, -3.25);
}

#[test]
fn unknown_byte_decodes_to_none_in_place() {
    assert_eq!(
        decode(&[6, 200, 4]),
        vec![
            MsgElem::Code(MessageCode::PID),
            MsgElem::Code(MessageCode::NONE),
            MsgElem::Code(MessageCode::SET),
        ]
    );
    assert_eq!(
        decode(&[99, 2, 7, 0, 0, 0]),
        vec![MsgElem::Code(MessageCode::NONE), MsgElem::U32(7)]
    );
}

#[test]
fn truncated_payload_becomes_none_and_ends_the_span() {
    assert_eq!(
        decode(&[6, 1, 0, 0]),
        vec![MsgElem::Code(MessageCode::PID), MsgElem::Code(MessageCode::NONE)]
    );
    assert_eq!(decode(&[3]), vec![MsgElem::Code(MessageCode::NONE)]);
    assert_eq!(
        decode(&[2, 1, 0, 0, 0, 2, 9, 9, 9]),
        vec![MsgElem::U32(1), MsgElem::Code(MessageCode::NONE)]
    );
}

#[test]
fn empty_span_decodes_to_empty_message() {
    assert_eq!(decode(&[]), Vec::<MsgElem>::new());
}

#[test]
fn matcher_compares_kinds_only() {
    let a = [MsgElem::Code(MessageCode::PID), MsgElem::F32(1.0f32.to_bits())];
    let b = [MsgElem::Code(MessageCode::SET), MsgElem::F32(9.9f32.to_bits())];
    let c = [MsgElem::Code(MessageCode::PID), MsgElem::U32(1)];
    assert!(compare_messages(&a, &b));
    assert!(!compare_messages(&a, &c));
    assert!(!compare_messages(&a, &a[..1]));
    assert!(!compare_messages(&[], &a));
    assert!(compare_messages(&[], &[]));
    assert!(compare_messages(&[MsgElem::I32(-5)], &[MsgElem::I32(5)]));
}
