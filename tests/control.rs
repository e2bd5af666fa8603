use robot_serial::code::MessageCode;
use robot_serial::control::{
    drive_base_message, f32_values, odometry_template, pid_gains_message, pid_target_to_msg,
    pid_update_template, PIDTarget,
};
use robot_serial::message::{compare_messages, MsgElem};

#[test]
fn targets_map_to_subsystem_codes() {
    assert_eq!(pid_target_to_msg(PIDTarget::EncoderMotor), MessageCode::ENCODER_MOTOR);
    assert_eq!(pid_target_to_msg(PIDTarget::DriveBase), MessageCode::DRIVE_BASE);
    assert_eq!(pid_target_to_msg(PIDTarget::Shoulder), MessageCode::SHOULDER);
}

#[test]
fn pid_gains_command_layout() {
    let m = pid_gains_message(PIDTarget::Shoulder, 1, 2, 3, 4);
    assert_eq!(
        m,
        vec![
            MsgElem::Code(MessageCode::PID),
            MsgElem::Code(MessageCode::SET),
            MsgElem::Code(MessageCode::SHOULDER),
            MsgElem::F32(1),
            MsgElem::F32(2),
            MsgElem::F32(3),
            MsgElem::F32(4),
        ]
    );
}

#[test]
fn drive_base_command_layout() {
    let m = drive_base_message(0.5f32.to_bits(), true);
    assert_eq!(
        m,
        vec![
            MsgElem::Code(MessageCode::DRIVE_BASE),
            MsgElem::Code(MessageCode::SET),
            MsgElem::F32(0.5f32.to_bits()),
            MsgElem::U32(1),
        ]
    );
    assert_eq!(drive_base_message(0, false)[3], MsgElem::U32(0));
}

#[test]
fn telemetry_shapes_are_recognised() {
    let pid = [
        MsgElem::Code(MessageCode::PID),
        MsgElem::F32(1.5f32.to_bits()),
        MsgElem::F32(2.0f32.to_bits()),
        MsgElem::F32(0),
        MsgElem::F32(0),
        MsgElem::F32(7),
    ];
    assert!(compare_messages(&pid, &pid_update_template()));
    assert!(!compare_messages(&pid, &odometry_template()));
    let odo = [
        MsgElem::Code(MessageCode::ODOMETRY),
        MsgElem::F32(1),
        MsgElem::F32(2),
        MsgElem::F32(3),
    ];
    assert!(compare_messages(&odo, &odometry_template()));
    assert_eq!(
        f32_values(&pid),
        vec![1.5f32.to_bits(), 2.0f32.to_bits(), 0, 0, 7]
    );
}

#[test]
fn float_values_skip_other_elements() {
    let m = [
        MsgElem::U32(5),
        MsgElem::F32(8),
        MsgElem::Code(MessageCode::SET),
        MsgElem::I32(-1),
        MsgElem::F32(9),
    ];
    assert_eq!(f32_values(&m), vec![8, 9]);
    assert_eq!(f32_values(&[]), Vec::<u32>::new());
}
