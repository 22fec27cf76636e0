//! Hardware controls: the state reported to the front end, and the rules by
//! which each platform's probes and commands are read.

pub mod linux;
pub mod windows;

use vstd::prelude::*;
use crate::errors::AppError;

verus! {

/// Master volume of the default output device.
#[derive(Debug, Clone, Copy, PartialEq, Eq, Structural)]
pub struct VolumeInfo {
    /// Level in percent.
    pub level: u8,
    pub muted: bool,
    /// Whether the device could be queried.
    pub available: bool,
}

/// State of the Wi-Fi radio.
#[derive(Debug, Clone, Copy, PartialEq, Eq, Structural)]
pub struct WifiInfo {
    pub enabled: bool,
    /// Whether a Wi-Fi interface could be queried.
    pub available: bool,
}

/// State of the Bluetooth radio.
#[derive(Debug, Clone, Copy, PartialEq, Eq, Structural)]
pub struct BluetoothInfo {
    pub enabled: bool,
    /// Whether a Bluetooth radio could be queried.
    pub available: bool,
}

/// Volume, Wi-Fi and Bluetooth state together.
#[derive(Debug, Clone, Copy, PartialEq, Eq, Structural)]
pub struct HardwareState {
    pub volume: VolumeInfo,
    pub wifi: WifiInfo,
    pub bluetooth: BluetoothInfo,
}

/// The state reported where nothing can be queried: everything off and unavailable.
pub open spec fn nothing_available() -> HardwareState {
    HardwareState {
        volume: VolumeInfo { level: 0, muted: false, available: false },
        wifi: WifiInfo { enabled: false, available: false },
        bluetooth: BluetoothInfo { enabled: false, available: false },
    }
}

/// Message of the error given by hardware controls on a platform without them.
pub open spec fn platform_not_supported() -> Seq<char> {
    "platform not supported"@
}

/// The state reported where nothing can be queried.
pub fn unavailable_state() -> (s: HardwareState)
    ensures
        s == nothing_available(),
{
    HardwareState {
        volume: VolumeInfo { level: 0, muted: false, available: false },
        wifi: WifiInfo { enabled: false, available: false },
        bluetooth: BluetoothInfo { enabled: false, available: false },
    }
}

/// The error of a hardware control on a platform without hardware controls.
pub fn unsupported_platform() -> (e: AppError)
    ensures
        e is NotAvailable && e.message() == platform_not_supported(),
{
    AppError::NotAvailable(String::from_str("platform not supported"))
}

} // verus!
