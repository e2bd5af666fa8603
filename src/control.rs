//! The messages that the host exchanges with the robot: the telemetry shapes
//! it recognises and the commands it sends.

use vstd::prelude::*;

use crate::code::MessageCode;
use crate::message::MsgElem;

verus! {

/// The controller whose PID gains are being tuned.
#[derive(Clone, Copy, Debug, PartialEq, Eq, Structural)]
pub enum PIDTarget {
    EncoderMotor,
    DriveBase,
    Shoulder,
}

/// The subsystem code that addresses `target`.
pub open spec fn target_code(target: PIDTarget) -> MessageCode {
    match target {
        PIDTarget::EncoderMotor => MessageCode::ENCODER_MOTOR,
        PIDTarget::DriveBase => MessageCode::DRIVE_BASE,
        PIDTarget::Shoulder => MessageCode::SHOULDER,
    }
}

/// The subsystem code that addresses `target`.
pub fn pid_target_to_msg(target: PIDTarget) -> (c: MessageCode)
    ensures
        c == target_code(target),
{
    match target {
        PIDTarget::EncoderMotor => MessageCode::ENCODER_MOTOR,
        PIDTarget::DriveBase => MessageCode::DRIVE_BASE,
        PIDTarget::Shoulder => MessageCode::SHOULDER,
    }
}

/// The float payloads of `m`, in order, other elements skipped.
pub open spec fn f32_payloads(m: Seq<MsgElem>) -> Seq<u32>
    decreases m.len(),
{
    if m.len() == 0 {
        Seq::empty()
    } else {
        let init = f32_payloads(m.drop_last());
        match m.last() {
            MsgElem::F32(x) => init.push(x),
            _ => init,
        }
    }
}

/// The shape of one PID telemetry update: the PID code, then error,
/// setpoint and the P, I and D outputs as floats.
pub fn pid_update_template() -> (r: Vec<MsgElem>)
    ensures
        r@ == seq![
            MsgElem::Code(MessageCode::PID),
            MsgElem::F32(0),
            MsgElem::F32(0),
            MsgElem::F32(0),
            MsgElem::F32(0),
            MsgElem::F32(0),
        ],
{
    vec![
        MsgElem::Code(MessageCode::PID),
        MsgElem::F32(0),
        MsgElem::F32(0),
        MsgElem::F32(0),
        MsgElem::F32(0),
        MsgElem::F32(0),
    ]
}

/// The shape of one odometry update: the odometry code, then x, y and
/// heading as floats.
pub fn odometry_template() -> (r: Vec<MsgElem>)
    ensures
        r@ == seq![
            MsgElem::Code(MessageCode::ODOMETRY),
            MsgElem::F32(0),
            MsgElem::F32(0),
            MsgElem::F32(0),
        ],
{
    vec![
        MsgElem::Code(MessageCode::ODOMETRY),
        MsgElem::F32(0),
        MsgElem::F32(0),
        MsgElem::F32(0),
    ]
}

/// The float payloads of `message`, in order, as bit patterns.
pub fn f32_values(message: &[MsgElem]) -> (r: Vec<u32>)
    ensures
        r@ == f32_payloads(message@),
{
    let mut values: Vec<u32> = Vec::new();
    let mut i: usize = 0;
    while i < message.len()
        invariant
            i <= message@.len(),
            values@ == f32_payloads(message@.subrange(0, i as int)),
        decreases message@.len() - i,
    {
        proof {
            assert(message@.subrange(0, i + 1).drop_last() =~= message@.subrange(0, i as int));
        }
        if let MsgElem::F32(x) = message[i] {
            values.push(x);
        }
        i += 1;
    }
    assert(message@.subrange(0, message@.len() as int) =~= message@);
    values
}

/// The command that sets the PID gains and the cumulative-error bound of
/// `target`; the four values are float bit patterns.
pub fn pid_gains_message(target: PIDTarget, kp: u32, ki: u32, kd: u32, max_ce: u32) -> (r: Vec<
    MsgElem,
>)
    ensures
        r@ == seq![
            MsgElem::Code(MessageCode::PID),
            MsgElem::Code(MessageCode::SET),
            MsgElem::Code(target_code(target)),
            MsgElem::F32(kp),
            MsgElem::F32(ki),
            MsgElem::F32(kd),
            MsgElem::F32(max_ce),
        ],
{
    vec![
        MsgElem::Code(MessageCode::PID),
        MsgElem::Code(MessageCode::SET),
        MsgElem::Code(pid_target_to_msg(target)),
        MsgElem::F32(kp),
        MsgElem::F32(ki),
        MsgElem::F32(kd),
        MsgElem::F32(max_ce),
    ]
}

/// The command that sets the drive base's speed (a float bit pattern) and
/// turns tape following on or off.
pub fn drive_base_message(base_speed: u32, tape_following: bool) -> (r: Vec<MsgElem>)
    ensures
        r@ == seq![
            MsgElem::Code(MessageCode::DRIVE_BASE),
            MsgElem::Code(MessageCode::SET),
            MsgElem::F32(base_speed),
            MsgElem::U32(if tape_following { 1 } else { 0 }),
        ],
{
    let flag: u32 = if tape_following { 1 } else { 0 };
    vec![
        MsgElem::Code(MessageCode::DRIVE_BASE),
        MsgElem::Code(MessageCode::SET),
        MsgElem::F32(base_speed),
        MsgElem::U32(flag),
    ]
}

} // verus!
