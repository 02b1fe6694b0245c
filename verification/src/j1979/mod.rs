//! SAE J1979 Mode 01 / 02 / 03 / 09 helpers.
pub mod decode;
pub mod dtc;
pub mod pid;

pub use decode::{decode_mode_pid, known_pid_catalog};
pub use dtc::{clear_dtc_command, dtc_command, parse_clear_ack, parse_dtcs, Dtc, DtcStatus};
pub use pid::{
    decode_pid, mode01_command, mode09_command, parse_hex_bytes, parse_vin, pid_supported_bitmap,
    priority_pids, standard_pid_defs, Fraction, LiveValue, PidDef,
};

use crate::text::{append_hex2, hex2, owned, push_str};
use vstd::prelude::*;

verus! {

/// Mode 02 freeze-frame command for a PID (frame 0).
pub fn mode02_command(pid: u8) -> (r: String)
    ensures
        r@ == "02"@ + hex2(pid) + "00"@,
{
    let mut r = owned("02");
    append_hex2(&mut r, pid);
    push_str(&mut r, "00");
    r
}

/// Mode 01 PID 01 monitor status request.
pub fn monitor_status_command() -> (r: &'static str)
    ensures
        r@ == "0101"@,
{
    "0101"
}

} // verus!
