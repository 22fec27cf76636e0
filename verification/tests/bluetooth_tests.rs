use jarvis::errors::AppError;
use jarvis::hardware::windows::{
    bluetooth_toggle_script, check_bluetooth_toggle, check_com_init, first_wifi_interface,
    get_hardware_state, is_valid_instance_id, radio_is_on, radio_state_word, read_bluetooth_instance_id,
    read_bluetooth_status, validate_instance_id, wlan_err,
};
use jarvis::hardware::{linux, unsupported_platform, BluetoothInfo, VolumeInfo, WifiInfo};

#[test]
fn valid_instance_id_with_backslashes() {
    assert!(is_valid_instance_id("USB\\VID_0BDA&PID_2553\\5&12345"));
}

#[test]
fn rejects_injection_attempt() {
    assert!(!is_valid_instance_id("'; Write-Host pwned ;'"));
}

#[test]
fn rejects_empty_string() {
    assert!(!is_valid_instance_id(""));
}

#[test]
fn rejects_non_ascii_instance_id() {
    assert!(!is_valid_instance_id("USB\\Ä"));
    assert!(validate_instance_id("PCI\\VEN_8086").is_ok());
    match validate_instance_id("a b") {
        Err(AppError::SystemError(m)) => assert_eq!(m, "InstanceId contains invalid characters"),
        _ => panic!("expected error"),
    }
}

#[test]
fn wlan_error_codes() {
    assert!(wlan_err(0, "WlanOpenHandle").is_ok());
    match wlan_err(87, "WlanOpenHandle") {
        Err(AppError::SystemError(m)) => assert_eq!(m, "WlanOpenHandle: error code 87"),
        _ => panic!("expected error"),
    }
}

#[test]
fn wifi_interface_and_radio_words() {
    assert_eq!(first_wifi_interface(Some(2)).unwrap(), 0);
    assert!(matches!(first_wifi_interface(Some(0)), Err(AppError::NotAvailable(_))));
    match first_wifi_interface(None) {
        Err(AppError::NotAvailable(m)) => assert_eq!(m, "no Wi-Fi interface"),
        _ => panic!("expected error"),
    }
    assert_eq!(radio_state_word(true), 1);
    assert_eq!(radio_state_word(false), 0);
    assert!(radio_is_on(5));
    assert!(!radio_is_on(0));
}

#[test]
fn windows_state_from_probes() {
    let s = get_hardware_state(
        Ok((42, true)),
        Err(AppError::NotAvailable("x".to_string())),
        Ok(false),
    )
    .unwrap();
    assert_eq!(s.volume, VolumeInfo { level: 42, muted: true, available: true });
    assert_eq!(s.wifi, WifiInfo { enabled: false, available: false });
    assert_eq!(s.bluetooth, BluetoothInfo { enabled: false, available: true });
}

#[test]
fn linux_hardware_is_unavailable() {
    let s = linux::get_hardware_state().unwrap();
    assert!(!s.volume.available && !s.wifi.available && !s.bluetooth.available);
    assert_eq!(s.volume.level, 0);
    assert!(linux::set_system_volume(50).is_ok());
    assert!(linux::set_volume_muted(true).is_ok());
    assert!(linux::set_wifi_enabled(true).is_ok());
    assert!(linux::set_bluetooth_enabled(false).is_ok());
    match unsupported_platform() {
        AppError::NotAvailable(m) => assert_eq!(m, "platform not supported"),
        _ => panic!("expected NotAvailable"),
    }
}

#[test]
fn bluetooth_status_output_is_read() {
    assert_eq!(read_bluetooth_status(true, b"  OK\r\n", b"").unwrap(), true);
    assert_eq!(read_bluetooth_status(true, b"Error\n", b"").unwrap(), false);
    match read_bluetooth_status(true, b" \n", b"") {
        Err(AppError::NotAvailable(m)) => assert_eq!(m, "no Bluetooth radio"),
        _ => panic!("expected NotAvailable"),
    }
    match read_bluetooth_status(false, b"", b"denied") {
        Err(AppError::SystemError(m)) => assert_eq!(m, "Get-PnpDevice failed: denied"),
        _ => panic!("expected SystemError"),
    }
    assert_eq!(read_bluetooth_instance_id(true, b"USB\\VID_1\r\n", b"").unwrap(), "USB\\VID_1");
}

#[test]
fn bluetooth_toggle_command_and_result() {
    assert_eq!(
        bluetooth_toggle_script(true),
        "param([string]$Id) Enable-PnpDevice -InstanceId $Id -Confirm:$false"
    );
    assert_eq!(
        bluetooth_toggle_script(false),
        "param([string]$Id) Disable-PnpDevice -InstanceId $Id -Confirm:$false"
    );
    assert!(check_bluetooth_toggle(true, true, b"").is_ok());
    match check_bluetooth_toggle(false, false, b"access denied") {
        Err(AppError::SystemError(m)) => {
            assert_eq!(m, "Disable-PnpDevice failed (likely requires admin): access denied")
        }
        _ => panic!("expected error"),
    }
}

#[test]
fn com_initialisation_results() {
    assert!(check_com_init(0, "0x00000000").is_ok());
    assert!(check_com_init(1, "0x00000001").is_ok());
    match check_com_init(-2147417850, "0x80010106") {
        Err(AppError::SystemError(m)) => assert_eq!(m, "COM threading mode conflict"),
        _ => panic!("expected error"),
    }
    match check_com_init(-5, "0xFFFFFFFB") {
        Err(AppError::SystemError(m)) => assert_eq!(m, "CoInitializeEx: 0xFFFFFFFB"),
        _ => panic!("expected error"),
    }
}
