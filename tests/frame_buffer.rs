use robot_serial::code::MessageCode;
use robot_serial::frame::{MessageBuffer, BACKLOG_CEILING};
use robot_serial::message::{convert_message, MsgElem};

fn odometry() -> Vec<MsgElem> {
    vec![
        MsgElem::Code(MessageCode::ODOMETRY),
        MsgElem::F32(0.5f32.to_bits()),
        MsgElem::F32(2.0f32.to_bits()),
        MsgElem::F32(0.25f32.to_bits()),
    ]
}

fn pid_command() -> Vec<MsgElem> {
    vec![
        MsgElem::Code(MessageCode::PID),
        MsgElem::Code(MessageCode::GET),
        MsgElem::U32(7),
        MsgElem::I32(-9),
    ]
}

#[test]
fn whole_frame_decodes_and_empties_backlog() {
    let mut buffer = MessageBuffer::new();
    buffer.feed(&convert_message(&odometry()));
    assert_eq!(buffer.parse_message(), Some(odometry()));
    assert!(buffer.backlog().is_empty());
    assert_eq!(buffer.parse_message(), None);
}

#[test]
fn frame_split_into_chunks_decodes_once_complete() {
    let frame = convert_message(&odometry());
    for split in [1usize, 3, 7] {
        let mut buffer = MessageBuffer::new();
        let mut found = Vec::new();
        for chunk in frame.chunks(split) {
            buffer.feed(chunk);
            if let Some(m) = buffer.parse_message() {
                found.push(m);
            }
        }
        assert_eq!(found, vec![odometry()]);
        assert!(buffer.backlog().is_empty());
    }
}

#[test]
fn partial_frame_is_kept_for_later() {
    let frame = convert_message(&pid_command());
    let mut buffer = MessageBuffer::new();
    buffer.feed(&frame[..5]);
    assert_eq!(buffer.parse_message(), None);
    assert_eq!(buffer.backlog(), &frame[..5]);
    buffer.feed(&frame[5..]);
    assert_eq!(buffer.parse_message(), Some(pid_command()));
}

#[test]
fn two_frames_in_one_feed_come_out_in_order() {
    let mut bytes = convert_message(&odometry());
    bytes.extend(convert_message(&pid_command()));
    let mut buffer = MessageBuffer::new();
    buffer.feed(&bytes);
    assert_eq!(buffer.parse_message(), Some(odometry()));
    assert_eq!(buffer.backlog(), convert_message(&pid_command()).as_slice());
    assert_eq!(buffer.parse_message(), Some(pid_command()));
    assert_eq!(buffer.parse_message(), None);
}

#[test]
fn bytes_before_start_are_dropped_with_the_frame() {
    let mut buffer = MessageBuffer::new();
    buffer.feed(&[6, 7, 35, 0, 4, 35, 9, 9]);
    assert_eq!(buffer.parse_message(), Some(vec![MsgElem::Code(MessageCode::SET)]));
    assert_eq!(buffer.backlog(), &[9, 9]);
}

#[test]
fn backlog_without_start_is_kept() {
    let mut buffer = MessageBuffer::new();
    buffer.feed(&[6, 7, 35]);
    assert_eq!(buffer.parse_message(), None);
    assert_eq!(buffer.backlog(), &[6, 7, 35]);
}

#[test]
fn overflow_drops_the_backlog() {
    let mut buffer = MessageBuffer::new();
    let mut bytes = vec![0u8, 6];
    bytes.extend(std::iter::repeat(7u8).take(BACKLOG_CEILING + 100));
    buffer.feed(&bytes);
    assert_eq!(buffer.parse_message(), None);
    assert!(buffer.backlog().is_empty());
    assert_eq!(buffer.parse_message(), None);
}

#[test]
fn backlog_at_the_ceiling_is_dropped_even_with_a_whole_frame() {
    let mut buffer = MessageBuffer::new();
    let mut bytes = convert_message(&odometry());
    let len = bytes.len();
    bytes.extend(std::iter::repeat(7u8).take(BACKLOG_CEILING - len));
    buffer.feed(&bytes);
    assert_eq!(buffer.parse_message(), None);
    assert!(buffer.backlog().is_empty());
}

#[test]
fn backlog_below_the_ceiling_is_kept() {
    let mut buffer = MessageBuffer::new();
    let mut bytes = convert_message(&odometry());
    let len = bytes.len();
    bytes.extend(std::iter::repeat(7u8).take(BACKLOG_CEILING - 1 - len));
    buffer.feed(&bytes);
    assert_eq!(buffer.parse_message(), Some(odometry()));
    assert_eq!(buffer.backlog().len(), BACKLOG_CEILING - 1 - len);
}
