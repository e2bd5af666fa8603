//! The message code table: every code that travels on the wire, and the
//! one-to-one mapping between codes and byte values.

use vstd::prelude::*;

verus! {

/// A single-byte code of the wire protocol.
///
/// `MSG_START` and `MSG_END` delimit a frame; `FLOAT_AHEAD`, `UINT_AHEAD` and
/// `INT_AHEAD` announce a four-byte little-endian payload. Every other code is
/// semantic: it names a subsystem, an attribute or a directive. `NONE` stands
/// for a byte that maps to no code.
#[allow(non_camel_case_types)]
#[derive(Clone, Copy, Debug, PartialEq, Eq, Structural)]
pub enum MessageCode {
    MSG_START,
    FLOAT_AHEAD,
    UINT_AHEAD,
    INT_AHEAD,
    SET,
    GET,
    PID,
    ARM,
    TTBL,
    SHOULDER,
    ELBOW,
    CLAW,
    ENCODER_MOTOR,
    DRIVE_BASE,
    LIDAR,
    MAGNETOMETER,
    IR_BEACON,
    TAPE_SENSOR,
    ODOMETRY,
    ANGLE,
    VELOCITY,
    PID_ERROR,
    PID_SETPOINT,
    PID_ACCUMULATOR,
    PID_KP,
    PID_KI,
    PID_KD,
    PID_OUTPUT,
    ALL,
    NONE,
    RAW,
    CONVERTED,
    LEFT,
    RIGHT,
    MSG_TYPE_COUNTER,
    MSG_END,
}

/// The byte value that stands for `c` on the wire.
pub open spec fn code_byte(c: MessageCode) -> u8 {
    match c {
        MessageCode::MSG_START => 0u8,
        MessageCode::FLOAT_AHEAD => 1u8,
        MessageCode::UINT_AHEAD => 2u8,
        MessageCode::INT_AHEAD => 3u8,
        MessageCode::SET => 4u8,
        MessageCode::GET => 5u8,
        MessageCode::PID => 6u8,
        MessageCode::ARM => 7u8,
        MessageCode::TTBL => 8u8,
        MessageCode::SHOULDER => 9u8,
        MessageCode::ELBOW => 10u8,
        MessageCode::CLAW => 11u8,
        MessageCode::ENCODER_MOTOR => 12u8,
        MessageCode::DRIVE_BASE => 13u8,
        MessageCode::LIDAR => 14u8,
        MessageCode::MAGNETOMETER => 15u8,
        MessageCode::IR_BEACON => 16u8,
        MessageCode::TAPE_SENSOR => 17u8,
        MessageCode::ODOMETRY => 18u8,
        MessageCode::ANGLE => 19u8,
        MessageCode::VELOCITY => 20u8,
        MessageCode::PID_ERROR => 21u8,
        MessageCode::PID_SETPOINT => 22u8,
        MessageCode::PID_ACCUMULATOR => 23u8,
        MessageCode::PID_KP => 24u8,
        MessageCode::PID_KI => 25u8,
        MessageCode::PID_KD => 26u8,
        MessageCode::PID_OUTPUT => 27u8,
        MessageCode::ALL => 28u8,
        MessageCode::NONE => 29u8,
        MessageCode::RAW => 30u8,
        MessageCode::CONVERTED => 31u8,
        MessageCode::LEFT => 32u8,
        MessageCode::RIGHT => 33u8,
        MessageCode::MSG_TYPE_COUNTER => 34u8,
        MessageCode::MSG_END => 35u8,
    }
}

/// Number of codes in the table; the byte values in use are `0..CODE_COUNT`.
pub const CODE_COUNT: u8 = 36;

/// Whether `c` announces a four-byte payload.
pub open spec fn is_type_tag(c: MessageCode) -> bool {
    c == MessageCode::FLOAT_AHEAD || c == MessageCode::UINT_AHEAD || c == MessageCode::INT_AHEAD
}

/// The code that byte `b` stands for, if any.
pub open spec fn byte_code(b: u8) -> Option<MessageCode> {
    if exists|c: MessageCode| code_byte(c) == b {
        Some(choose|c: MessageCode| code_byte(c) == b)
    } else {
        None
    }
}

/// The code that byte `b` stands for, or `NONE` where it stands for none.
pub open spec fn byte_code_or_none(b: u8) -> MessageCode {
    match byte_code(b) {
        Some(c) => c,
        None => MessageCode::NONE,
    }
}

/// No two codes share a byte value.
pub proof fn lemma_code_byte_injective(c: MessageCode, d: MessageCode)
    ensures
        code_byte(c) == code_byte(d) <==> c == d,
{
}

/// Every code uses a byte below `CODE_COUNT`, and mapping a code to its byte
/// and back gives the code again.
pub proof fn lemma_byte_code_inverse(c: MessageCode)
    ensures
        code_byte(c) < CODE_COUNT,
        byte_code(code_byte(c)) == Some(c),
{
    assert(forall|d: MessageCode| #[trigger] code_byte(d) == code_byte(c) ==> d == c);
}

impl MessageCode {
    /// The byte value of this code.
    pub fn to_byte(self) -> (b: u8)
        ensures
            b == code_byte(self),
    {
        match self {
            MessageCode::MSG_START => 0,
            MessageCode::FLOAT_AHEAD => 1,
            MessageCode::UINT_AHEAD => 2,
            MessageCode::INT_AHEAD => 3,
            MessageCode::SET => 4,
            MessageCode::GET => 5,
            MessageCode::PID => 6,
            MessageCode::ARM => 7,
            MessageCode::TTBL => 8,
            MessageCode::SHOULDER => 9,
            MessageCode::ELBOW => 10,
            MessageCode::CLAW => 11,
            MessageCode::ENCODER_MOTOR => 12,
            MessageCode::DRIVE_BASE => 13,
            MessageCode::LIDAR => 14,
            MessageCode::MAGNETOMETER => 15,
            MessageCode::IR_BEACON => 16,
            MessageCode::TAPE_SENSOR => 17,
            MessageCode::ODOMETRY => 18,
            MessageCode::ANGLE => 19,
            MessageCode::VELOCITY => 20,
            MessageCode::PID_ERROR => 21,
            MessageCode::PID_SETPOINT => 22,
            MessageCode::PID_ACCUMULATOR => 23,
            MessageCode::PID_KP => 24,
            MessageCode::PID_KI => 25,
            MessageCode::PID_KD => 26,
            MessageCode::PID_OUTPUT => 27,
            MessageCode::ALL => 28,
            MessageCode::NONE => 29,
            MessageCode::RAW => 30,
            MessageCode::CONVERTED => 31,
            MessageCode::LEFT => 32,
            MessageCode::RIGHT => 33,
            MessageCode::MSG_TYPE_COUNTER => 34,
            MessageCode::MSG_END => 35,
        }
    }
}

/// The code that `input` stands for, or `None` for a byte outside the table.
pub fn u8_to_code(input: u8) -> (r: Option<MessageCode>)
    ensures
        r == byte_code(input),
        r matches Some(c) ==> code_byte(c) == input,
        r is None <==> input >= CODE_COUNT,
{
    let r = match input {
        0 => Some(MessageCode::MSG_START),
        1 => Some(MessageCode::FLOAT_AHEAD),
        2 => Some(MessageCode::UINT_AHEAD),
        3 => Some(MessageCode::INT_AHEAD),
        4 => Some(MessageCode::SET),
        5 => Some(MessageCode::GET),
        6 => Some(MessageCode::PID),
        7 => Some(MessageCode::ARM),
        8 => Some(MessageCode::TTBL),
        9 => Some(MessageCode::SHOULDER),
        10 => Some(MessageCode::ELBOW),
        11 => Some(MessageCode::CLAW),
        12 => Some(MessageCode::ENCODER_MOTOR),
        13 => Some(MessageCode::DRIVE_BASE),
        14 => Some(MessageCode::LIDAR),
        15 => Some(MessageCode::MAGNETOMETER),
        16 => Some(MessageCode::IR_BEACON),
        17 => Some(MessageCode::TAPE_SENSOR),
        18 => Some(MessageCode::ODOMETRY),
        19 => Some(MessageCode::ANGLE),
        20 => Some(MessageCode::VELOCITY),
        21 => Some(MessageCode::PID_ERROR),
        22 => Some(MessageCode::PID_SETPOINT),
        23 => Some(MessageCode::PID_ACCUMULATOR),
        24 => Some(MessageCode::PID_KP),
        25 => Some(MessageCode::PID_KI),
        26 => Some(MessageCode::PID_KD),
        27 => Some(MessageCode::PID_OUTPUT),
        28 => Some(MessageCode::ALL),
        29 => Some(MessageCode::NONE),
        30 => Some(MessageCode::RAW),
        31 => Some(MessageCode::CONVERTED),
        32 => Some(MessageCode::LEFT),
        33 => Some(MessageCode::RIGHT),
        34 => Some(MessageCode::MSG_TYPE_COUNTER),
        35 => Some(MessageCode::MSG_END),
        _ => None,
    };
    proof {
        match r {
            Some(c) => lemma_byte_code_inverse(c),
            None => {
                assert forall|c: MessageCode| code_byte(c) != input by {
                    lemma_byte_code_inverse(c);
                }
            },
        }
    }
    r
}

} // verus!
