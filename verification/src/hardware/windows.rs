//! Hardware controls on Windows: how the audio, WLAN and PnP probes are read
//! and how the Bluetooth toggle command is put together and checked.

use vstd::prelude::*;
use crate::errors::AppError;
use crate::text::{decimal, push_decimal, str_eq, trim, trim_ws};
use super::{BluetoothInfo, HardwareState, VolumeInfo, WifiInfo};

verus! {

/// The characters a PnP instance id may hold: ASCII letters and digits, `-`, `\`, `&` and `_`.
pub open spec fn instance_id_char(c: char) -> bool {
    ('a' <= c <= 'z') || ('A' <= c <= 'Z') || ('0' <= c <= '9') || c == '-' || c == '\\' || c
        == '&' || c == '_'
}

/// A PnP instance id that is safe to hand to PowerShell: not empty, only allowed characters.
pub open spec fn valid_instance_id(id: Seq<char>) -> bool {
    id.len() > 0 && forall|i: int| 0 <= i < id.len() ==> instance_id_char(#[trigger] id[i])
}

/// Checks that a PnP instance id holds only ASCII letters, digits, `-`, `\`,
/// `&` and `_` and is not empty; this keeps it from injecting PowerShell code.
pub fn is_valid_instance_id(id: &str) -> (r: bool)
    ensures
        r == valid_instance_id(id@),
{
    let n = id.unicode_len();
    if n == 0 {
        return false;
    }
    let mut i: usize = 0;
    while i < n
        invariant
            n == id@.len(),
            i <= n,
            forall|k: int| 0 <= k < i ==> instance_id_char(#[trigger] id@[k]),
        decreases n - i,
    {
        let c = id.get_char(i);
        let ok = ('a' <= c && c <= 'z') || ('A' <= c && c <= 'Z') || ('0' <= c && c <= '9') || c
            == '-' || c == '\\' || c == '&' || c == '_';
        if !ok {
            return false;
        }
        i += 1;
    }
    true
}

/// Message of the error a failed WLAN call gives.
pub open spec fn wlan_error(op: Seq<char>, code: u32) -> Seq<char> {
    op + ": error code "@ + decimal(code as nat)
}

/// Reads the status code of a WLAN API call: zero is success.
pub fn wlan_err(code: u32, op: &str) -> (r: Result<(), AppError>)
    ensures
        r is Ok <==> code == 0,
        r matches Err(e) ==> e is SystemError && e.message() == wlan_error(op@, code),
{
    if code == 0 {
        Ok(())
    } else {
        let mut m = String::from_str(op);
        m.append(": error code ");
        push_decimal(&mut m, code as u64);
        Err(AppError::SystemError(m))
    }
}

/// The state reported from the three probes: a probe that failed makes its
/// device unavailable and off.
pub open spec fn composed_state(
    volume: Result<(u8, bool), AppError>,
    wifi: Result<bool, AppError>,
    bluetooth: Result<bool, AppError>,
) -> HardwareState {
    HardwareState {
        volume: match volume {
            Ok((level, muted)) => VolumeInfo { level, muted, available: true },
            Err(_) => VolumeInfo { level: 0, muted: false, available: false },
        },
        wifi: match wifi {
            Ok(enabled) => WifiInfo { enabled, available: true },
            Err(_) => WifiInfo { enabled: false, available: false },
        },
        bluetooth: match bluetooth {
            Ok(enabled) => BluetoothInfo { enabled, available: true },
            Err(_) => BluetoothInfo { enabled: false, available: false },
        },
    }
}

/// The hardware state from the volume, Wi-Fi and Bluetooth probes; it never fails.
pub fn get_hardware_state(
    volume: Result<(u8, bool), AppError>,
    wifi: Result<bool, AppError>,
    bluetooth: Result<bool, AppError>,
) -> (r: Result<HardwareState, AppError>)
    ensures
        r == Ok::<HardwareState, AppError>(composed_state(volume, wifi, bluetooth)),
        r matches Ok(st) && (wifi matches Ok(e) ==> st.wifi.enabled == e && st.wifi.available) && (wifi is Err
            ==> !st.wifi.enabled && !st.wifi.available) && (bluetooth matches Ok(e) ==> st.bluetooth.enabled
            == e && st.bluetooth.available) && (bluetooth is Err ==> !st.bluetooth.enabled
            && !st.bluetooth.available) && (volume matches Ok((l, m)) ==> st.volume.level == l
            && st.volume.muted == m && st.volume.available) && (volume is Err ==> st.volume.level == 0
            && !st.volume.muted && !st.volume.available),
{
    let (volume_level, volume_muted, volume_available) = match volume {
        Ok((level, muted)) => (level, muted, true),
        Err(_) => (0, false, false),
    };
    let (wifi_enabled, wifi_available) = match wifi {
        Ok(enabled) => (enabled, true),
        Err(_) => (false, false),
    };
    let (bt_enabled, bt_available) = match bluetooth {
        Ok(enabled) => (enabled, true),
        Err(_) => (false, false),
    };
    Ok(
        HardwareState {
            volume: VolumeInfo { level: volume_level, muted: volume_muted, available: volume_available },
            wifi: WifiInfo { enabled: wifi_enabled, available: wifi_available },
            bluetooth: BluetoothInfo { enabled: bt_enabled, available: bt_available },
        },
    )
}

/// Each device is reported from its own probe alone: a probe that answered
/// gives the device's state as available, a failed one makes it unavailable
/// and off, and changing the other probes changes nothing about it.
pub proof fn law_each_device_from_its_own_probe(
    v1: Result<(u8, bool), AppError>,
    w1: Result<bool, AppError>,
    b1: Result<bool, AppError>,
    v2: Result<(u8, bool), AppError>,
    w2: Result<bool, AppError>,
    b2: Result<bool, AppError>,
)
    ensures
        w1 matches Ok(e) ==> composed_state(v1, w1, b1).wifi.enabled == e && composed_state(v1, w1, b1).wifi.available,
        w1 is Err ==> !composed_state(v1, w1, b1).wifi.enabled && !composed_state(v1, w1, b1).wifi.available,
        b1 matches Ok(e) ==> composed_state(v1, w1, b1).bluetooth.enabled == e
            && composed_state(v1, w1, b1).bluetooth.available,
        b1 is Err ==> !composed_state(v1, w1, b1).bluetooth.enabled && !composed_state(v1, w1, b1).bluetooth.available,
        v1 matches Ok((l, m)) ==> composed_state(v1, w1, b1).volume.level == l
            && composed_state(v1, w1, b1).volume.muted == m && composed_state(v1, w1, b1).volume.available,
        v1 is Err ==> !composed_state(v1, w1, b1).volume.available,
        composed_state(v1, w1, b1).wifi == composed_state(v2, w1, b2).wifi,
        composed_state(v1, w1, b1).bluetooth == composed_state(v2, w2, b1).bluetooth,
        composed_state(v1, w1, b1).volume == composed_state(v1, w2, b2).volume,
{
}

/// Message of the error given when no Wi-Fi interface exists.
pub open spec fn no_wifi_interface() -> Seq<char> {
    "no Wi-Fi interface"@
}

/// Picks the first Wi-Fi interface from the interface list (absent when the
/// API returned no list): its index, or the error when there is none.
pub fn first_wifi_interface(count: Option<u32>) -> (r: Result<usize, AppError>)
    ensures
        r is Ok <==> (count matches Some(n) && n > 0),
        r matches Ok(i) ==> i == 0,
        r matches Err(e) ==> e is NotAvailable && e.message() == no_wifi_interface(),
{
    match count {
        Some(n) => if n > 0 {
            Ok(0)
        } else {
            Err(AppError::NotAvailable(String::from_str("no Wi-Fi interface")))
        },
        None => Err(AppError::NotAvailable(String::from_str("no Wi-Fi interface"))),
    }
}

/// The radio-state word written to switch Wi-Fi: 1 for on, 0 for off.
pub fn radio_state_word(enabled: bool) -> (w: u32)
    ensures
        w == if enabled {
            1u32
        } else {
            0u32
        },
{
    if enabled {
        1
    } else {
        0
    }
}

/// Whether a radio-state word read back means on: any value but 0.
pub fn radio_is_on(word: u32) -> (on: bool)
    ensures
        on == (word != 0),
{
    word != 0
}

/// `RPC_E_CHANGED_MODE`: COM was initialised on this thread in another threading mode.
pub open spec fn changed_mode_hresult() -> i32 {
    -2147417850i32
}

/// Message of the error given when COM runs in another threading mode.
pub open spec fn com_mode_conflict() -> Seq<char> {
    "COM threading mode conflict"@
}

/// Reads the result of initialising COM: `S_OK` and `S_FALSE` are success,
/// a threading-mode conflict and any other failure are errors; `hr_text` is
/// how the result displays.
pub fn check_com_init(hr: i32, hr_text: &str) -> (r: Result<(), AppError>)
    ensures
        r is Ok <==> (hr == 0 || hr == 1),
        r matches Err(e) ==> e is SystemError && e.message() == if hr == changed_mode_hresult() {
            com_mode_conflict()
        } else {
            "CoInitializeEx: "@ + hr_text@
        },
{
    if hr == 0 || hr == 1 {
        Ok(())
    } else if hr == -2147417850i32 {
        Err(AppError::SystemError(String::from_str("COM threading mode conflict")))
    } else {
        let mut m = String::from_str("CoInitializeEx: ");
        m.append(hr_text);
        Err(AppError::SystemError(m))
    }
}

/// How `String::from_utf8_lossy` decodes bytes: UTF-8, with each invalid
/// sequence replaced by U+FFFD.
pub uninterp spec fn lossy_utf8(bytes: Seq<u8>) -> Seq<char>;

/// Calls `String::from_utf8_lossy`, whose result depends on the bytes alone.
#[verifier::external_body]
fn decode_lossy(bytes: &[u8]) -> (s: String)
    ensures
        s@ == lossy_utf8(bytes@),
{
    String::from_utf8_lossy(bytes).into_owned()
}

/// Message of the error given when no Bluetooth radio exists.
pub open spec fn no_bluetooth_radio() -> Seq<char> {
    "no Bluetooth radio"@
}

/// Message of the error given when the PnP query fails.
pub open spec fn pnp_query_failed(stderr: Seq<u8>) -> Seq<char> {
    "Get-PnpDevice failed: "@ + lossy_utf8(stderr)
}

/// What a PnP query printed: its trimmed output, or the error when the query
/// failed or printed nothing.
pub open spec fn pnp_answer(success: bool, stdout: Seq<u8>, stderr: Seq<u8>, r: Result<String, AppError>) -> bool {
    if !success {
        r matches Err(e) && e is SystemError && e.message() == pnp_query_failed(stderr)
    } else if trim_ws(lossy_utf8(stdout)).len() == 0 {
        r matches Err(e) && e is NotAvailable && e.message() == no_bluetooth_radio()
    } else {
        r matches Ok(s) && s@ == trim_ws(lossy_utf8(stdout))
    }
}

fn read_pnp_output(success: bool, stdout: &[u8], stderr: &[u8]) -> (r: Result<String, AppError>)
    ensures
        pnp_answer(success, stdout@, stderr@, r),
{
    if !success {
        let mut m = String::from_str("Get-PnpDevice failed: ");
        let err = decode_lossy(stderr);
        m.append(err.as_str());
        return Err(AppError::SystemError(m));
    }
    let out = decode_lossy(stdout);
    let answer = trim(out.as_str());
    if answer.unicode_len() == 0 {
        Err(AppError::NotAvailable(String::from_str("no Bluetooth radio")))
    } else {
        Ok(answer)
    }
}

/// Reads the instance id printed by the PnP query for the first USB or PCI Bluetooth radio.
pub fn read_bluetooth_instance_id(success: bool, stdout: &[u8], stderr: &[u8]) -> (r: Result<
    String,
    AppError,
>)
    ensures
        pnp_answer(success, stdout@, stderr@, r),
{
    read_pnp_output(success, stdout, stderr)
}

/// Reads the status printed by the PnP query for the first USB or PCI
/// Bluetooth radio: the radio is on when the status is exactly `OK`.
pub fn read_bluetooth_status(success: bool, stdout: &[u8], stderr: &[u8]) -> (r: Result<
    bool,
    AppError,
>)
    ensures
        match r {
            Ok(on) => {
                &&& success
                &&& trim_ws(lossy_utf8(stdout@)).len() > 0
                &&& on == (trim_ws(lossy_utf8(stdout@)) == "OK"@)
            },
            Err(e) => !success && e is SystemError && e.message() == pnp_query_failed(stderr@) || success
                && trim_ws(lossy_utf8(stdout@)).len() == 0 && e is NotAvailable && e.message()
                == no_bluetooth_radio(),
        },
{
    let status = read_pnp_output(success, stdout, stderr)?;
    Ok(str_eq(status.as_str(), "OK"))
}

/// Message of the error given for an instance id with unsafe characters.
pub open spec fn invalid_instance_id() -> Seq<char> {
    "InstanceId contains invalid characters"@
}

/// Refuses an instance id that is not safe to hand to PowerShell.
pub fn validate_instance_id(id: &str) -> (r: Result<(), AppError>)
    ensures
        r is Ok <==> valid_instance_id(id@),
        r matches Err(e) ==> e is SystemError && e.message() == invalid_instance_id(),
{
    if is_valid_instance_id(id) {
        Ok(())
    } else {
        Err(AppError::SystemError(String::from_str("InstanceId contains invalid characters")))
    }
}

/// The PnP verb that switches a device on or off.
pub open spec fn pnp_verb(enabled: bool) -> Seq<char> {
    if enabled {
        "Enable"@
    } else {
        "Disable"@
    }
}

/// The PowerShell script that switches the device whose id is passed as its parameter.
pub open spec fn toggle_script(enabled: bool) -> Seq<char> {
    "param([string]$Id) "@ + pnp_verb(enabled) + "-PnpDevice -InstanceId $Id -Confirm:$false"@
}

/// The PowerShell script that switches the Bluetooth radio on or off; the
/// instance id goes in as a separate argument, never into the script text.
pub fn bluetooth_toggle_script(enabled: bool) -> (s: String)
    ensures
        s@ == toggle_script(enabled),
{
    let mut s = String::from_str("param([string]$Id) ");
    if enabled {
        s.append("Enable");
    } else {
        s.append("Disable");
    }
    s.append("-PnpDevice -InstanceId $Id -Confirm:$false");
    s
}

/// Reads the result of the toggle command.
pub fn check_bluetooth_toggle(success: bool, enabled: bool, stderr: &[u8]) -> (r: Result<
    (),
    AppError,
>)
    ensures
        r is Ok <==> success,
        r matches Err(e) ==> e is SystemError && e.message() == pnp_verb(enabled)
            + "-PnpDevice failed (likely requires admin): "@ + lossy_utf8(stderr@),
{
    if success {
        return Ok(());
    }
    let mut m = String::new();
    if enabled {
        m.append("Enable");
    } else {
        m.append("Disable");
    }
    m.append("-PnpDevice failed (likely requires admin): ");
    let err = decode_lossy(stderr);
    m.append(err.as_str());
    Err(AppError::SystemError(m))
}

} // verus!
