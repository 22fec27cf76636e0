//! Hardware controls on Linux: none are wired up, so the state reports
//! nothing available and the setters accept and ignore their argument.

use vstd::prelude::*;
use crate::errors::AppError;
use super::{nothing_available, unavailable_state, HardwareState};

verus! {

/// The hardware state on Linux: nothing available.
pub fn get_hardware_state() -> (r: Result<HardwareState, AppError>)
    ensures
        r == Ok::<HardwareState, AppError>(nothing_available()),
{
    Ok(unavailable_state())
}

/// Setting the volume on Linux succeeds without effect.
pub fn set_system_volume(_level: u8) -> (r: Result<(), AppError>)
    ensures
        r is Ok,
{
    Ok(())
}

/// Muting on Linux succeeds without effect.
pub fn set_volume_muted(_muted: bool) -> (r: Result<(), AppError>)
    ensures
        r is Ok,
{
    Ok(())
}

/// Switching Wi-Fi on Linux succeeds without effect.
pub fn set_wifi_enabled(_enabled: bool) -> (r: Result<(), AppError>)
    ensures
        r is Ok,
{
    Ok(())
}

/// Switching Bluetooth on Linux succeeds without effect.
pub fn set_bluetooth_enabled(_enabled: bool) -> (r: Result<(), AppError>)
    ensures
        r is Ok,
{
    Ok(())
}

} // verus!
