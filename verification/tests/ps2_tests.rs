use mxrox::interrupt::IoOp;
use mxrox::ps2::{
    ack_wait_step, is_ack, is_data_available, is_ps2_2_device_enabled, send_command, send_data,
    AckStep, IdentifyAction, IdentifyReply,
};

#[test]
fn status_bit_zero_means_data() {
    assert!(is_data_available(0x01));
    assert!(!is_data_available(0x02));
    assert!(is_data_available(0x03));
    assert!(!is_data_available(0x00));
}

#[test]
fn acknowledgement() {
    assert!(is_ack(0xFA));
    assert!(!is_ack(0xFE));
    assert_eq!(ack_wait_step(0x1D), AckStep::ReadData);
    assert_eq!(ack_wait_step(0x1C), AckStep::Sleep);
}

#[test]
fn second_device_is_off() {
    assert!(!is_ps2_2_device_enabled());
}

#[test]
fn controller_writes() {
    assert_eq!(send_data(0xF5), IoOp::Out { port: 0x60, value: 0xF5 });
    assert_eq!(send_command(0xAD), IoOp::Out { port: 0x64, value: 0xAD });
}

#[test]
fn identify_reply_of_two_bytes() {
    let mut r = IdentifyReply::new();
    assert_eq!(r.on_status(0x01), IdentifyAction::ReadData);
    assert!(!r.on_data(0xAB));
    assert_eq!(r.on_status(0x01), IdentifyAction::ReadData);
    assert!(r.on_data(0x83));
    assert_eq!(r.reply(), vec![0xAB, 0x83]);
}

#[test]
fn identify_reply_of_no_byte() {
    let mut r = IdentifyReply::new();
    assert_eq!(r.on_status(0x00), IdentifyAction::Sleep);
    assert_eq!(r.on_status(0x00), IdentifyAction::Finish);
    assert_eq!(r.reply(), vec![]);
}

#[test]
fn identify_reply_with_late_byte() {
    let mut r = IdentifyReply::new();
    assert_eq!(r.on_status(0x00), IdentifyAction::Sleep);
    assert_eq!(r.on_status(0x01), IdentifyAction::ReadData);
    assert!(!r.on_data(0x00));
    assert_eq!(r.on_status(0x00), IdentifyAction::Sleep);
    assert_eq!(r.on_status(0x00), IdentifyAction::Finish);
    assert_eq!(r.reply(), vec![0x00]);
}
