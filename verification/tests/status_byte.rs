use snr9816::status::{DeviceStatus, STATUS_IDLE};

#[test]
fn idle_byte_means_idle() {
    assert_eq!(STATUS_IDLE, 0x4F);
    assert_eq!(DeviceStatus::from_response(Some(0x4F)), DeviceStatus::Idle);
    assert!(DeviceStatus::from_response(Some(0x4F)).is_idle());
}

#[test]
fn any_other_byte_means_busy() {
    for byte in 0..=255u8 {
        if byte != 0x4F {
            assert_eq!(DeviceStatus::from_response(Some(byte)), DeviceStatus::Busy);
        }
    }
    assert_eq!(DeviceStatus::from_response(Some(0x4E)), DeviceStatus::Busy);
    assert_eq!(DeviceStatus::from_response(Some(0x41)), DeviceStatus::Busy);
    assert!(!DeviceStatus::from_response(Some(0x00)).is_idle());
}

#[test]
fn no_byte_means_busy() {
    assert_eq!(DeviceStatus::from_response(None), DeviceStatus::Busy);
}
