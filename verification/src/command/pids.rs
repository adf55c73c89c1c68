use vstd::prelude::*;

use super::ObdCommand;

verus! {

// Well-known OBD-II PIDs of Mode 01 (current data), one function per command.

/// Supported PIDs 01-20
pub fn supported_pids_01_20() -> (c: ObdCommand)
    ensures
        c == (ObdCommand { mode: 0x01, pid: 0x00 }),
{
    ObdCommand { mode: 0x01, pid: 0x00 }
}

/// Engine coolant temperature
pub fn coolant_temp() -> (c: ObdCommand)
    ensures
        c == (ObdCommand { mode: 0x01, pid: 0x05 }),
{
    ObdCommand { mode: 0x01, pid: 0x05 }
}

/// Engine RPM
pub fn engine_rpm() -> (c: ObdCommand)
    ensures
        c == (ObdCommand { mode: 0x01, pid: 0x0C }),
{
    ObdCommand { mode: 0x01, pid: 0x0C }
}

/// Vehicle speed
pub fn vehicle_speed() -> (c: ObdCommand)
    ensures
        c == (ObdCommand { mode: 0x01, pid: 0x0D }),
{
    ObdCommand { mode: 0x01, pid: 0x0D }
}

/// Throttle position
pub fn throttle_position() -> (c: ObdCommand)
    ensures
        c == (ObdCommand { mode: 0x01, pid: 0x11 }),
{
    ObdCommand { mode: 0x01, pid: 0x11 }
}

/// Fuel level input
pub fn fuel_level() -> (c: ObdCommand)
    ensures
        c == (ObdCommand { mode: 0x01, pid: 0x2F }),
{
    ObdCommand { mode: 0x01, pid: 0x2F }
}

} // verus!
