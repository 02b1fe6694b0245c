//! SAE J1979 Mode 01/02 PID decode formulas (common set).
use crate::error::Error;
use crate::j1979::pid::{hex_bytes_of_chars, hex_bytes_spec, odd_hex_message, Fraction, LiveValue, LiveValueView};
use crate::text::{
    append_hex2, chars_of, concat, contains, contains_chars, cviews, debug_quoted, debug_text, hex2,
    hex_digits_of, keep_hex, lines, lines_of, owned, push_str, starts_with, starts_with_chars,
    string_of, trim, trim_chars,
};
use vstd::prelude::*;

verus! {

/// A decoded reading: signal name, exact value and unit.
pub struct Reading {
    pub name: Seq<char>,
    pub value: Fraction,
    pub unit: Seq<char>,
}

pub open spec fn reading(name: &str, num: int, den: int, unit: &str) -> Reading {
    Reading { name: name@, value: Fraction { num: num as i64, den: den as u32 }, unit: unit@ }
}

/// The SAE formula for a PID's data bytes `A B ...`, when the PID is one this
/// library decodes and enough bytes are present.
pub open spec fn payload_formula(pid: u8, data: Seq<u8>) -> Option<Reading> {
    if data.len() == 0 {
        None
    } else {
        let a = data[0] as int;
        let b = if data.len() >= 2 {
            data[1] as int
        } else {
            0
        };
        let two = data.len() >= 2;
        let ab = a * 256 + b;
        if pid == 0x04 {
            Some(reading("engine_load", 100*a, 255, "%"))
        } else if pid == 0x05 {
            Some(reading("coolant_temp", a - 40, 1, "C"))
        } else if pid == 0x06 {
            Some(reading("stft_bank1", (a - 128)*100, 128, "%"))
        } else if pid == 0x07 {
            Some(reading("ltft_bank1", (a - 128)*100, 128, "%"))
        } else if pid == 0x08 {
            Some(reading("stft_bank2", (a - 128)*100, 128, "%"))
        } else if pid == 0x09 {
            Some(reading("ltft_bank2", (a - 128)*100, 128, "%"))
        } else if pid == 0x0A {
            Some(reading("fuel_pressure", 3*a, 1, "kPa"))
        } else if pid == 0x0B {
            Some(reading("map", a, 1, "kPa"))
        } else if pid == 0x0C && two {
            Some(reading("engine_rpm", ab, 4, "rpm"))
        } else if pid == 0x0D {
            Some(reading("vehicle_speed", a, 1, "km/h"))
        } else if pid == 0x0E {
            Some(reading("timing_advance", a - 128, 2, "deg"))
        } else if pid == 0x0F {
            Some(reading("intake_temp", a - 40, 1, "C"))
        } else if pid == 0x10 && two {
            Some(reading("maf", ab, 100, "g/s"))
        } else if pid == 0x11 {
            Some(reading("throttle", 100*a, 255, "%"))
        } else if pid == 0x1C {
            Some(reading("obd_standard", a, 1, "code"))
        } else if pid == 0x1F && two {
            Some(reading("run_time", ab, 1, "s"))
        } else if pid == 0x21 && two {
            Some(reading("distance_mil", ab, 1, "km"))
        } else if pid == 0x22 && two {
            Some(reading("fuel_rail_rel", 79*ab, 1000, "kPa"))
        } else if pid == 0x23 && two {
            Some(reading("fuel_rail_gauge", 10*ab, 1, "kPa"))
        } else if pid == 0x2C {
            Some(reading("commanded_egr", 100*a, 255, "%"))
        } else if pid == 0x2D {
            Some(reading("egr_error", (a - 128)*100, 128, "%"))
        } else if pid == 0x2E {
            Some(reading("commanded_evap", 100*a, 255, "%"))
        } else if pid == 0x2F {
            Some(reading("fuel_level", 100*a, 255, "%"))
        } else if pid == 0x30 {
            Some(reading("warmups_since_clear", a, 1, "count"))
        } else if pid == 0x31 && two {
            Some(reading("distance_clear", ab, 1, "km"))
        } else if pid == 0x33 {
            Some(reading("baro", a, 1, "kPa"))
        } else if pid == 0x42 && two {
            Some(reading("control_module_voltage", ab, 1000, "V"))
        } else if pid == 0x43 && two {
            Some(reading("abs_load", 100*ab, 255, "%"))
        } else if pid == 0x44 && two {
            Some(reading("cmd_equiv_ratio", ab, 32768, "ratio"))
        } else if pid == 0x45 {
            Some(reading("relative_throttle", 100*a, 255, "%"))
        } else if pid == 0x46 {
            Some(reading("ambient_temp", a - 40, 1, "C"))
        } else if pid == 0x47 {
            Some(reading("abs_throttle_b", 100*a, 255, "%"))
        } else if pid == 0x49 {
            Some(reading("accel_pedal_d", 100*a, 255, "%"))
        } else if pid == 0x4A {
            Some(reading("accel_pedal_e", 100*a, 255, "%"))
        } else if pid == 0x4C {
            Some(reading("commanded_throttle", 100*a, 255, "%"))
        } else if pid == 0x51 {
            Some(reading("fuel_type", a, 1, "code"))
        } else if pid == 0x52 {
            Some(reading("ethanol_fuel", 100*a, 255, "%"))
        } else if pid == 0x5A {
            Some(reading("rel_accel_pedal", 100*a, 255, "%"))
        } else if pid == 0x5B {
            Some(reading("hybrid_battery", 100*a, 255, "%"))
        } else if pid == 0x5C {
            Some(reading("oil_temp", a - 40, 1, "C"))
        } else if pid == 0x5E && two {
            Some(reading("fuel_rate", ab, 20, "L/h"))
        } else if pid == 0x61 {
            Some(reading("driver_demand_torque", a - 125, 1, "%"))
        } else if pid == 0x62 {
            Some(reading("actual_engine_torque", a - 125, 1, "%"))
        } else if pid == 0x63 && two {
            Some(reading("engine_ref_torque", ab, 1, "Nm"))
        } else {
            None
        }
    }
}

struct Decoded {
    name: String,
    value: Fraction,
    unit: String,
}

fn make_reading(name: &str, num: i64, den: u32, unit: &str) -> (r: Decoded)
    ensures
        r.name@ == name@,
        r.value == (Fraction { num, den }),
        r.unit@ == unit@,
{
    Decoded { name: owned(name), value: Fraction { num, den }, unit: owned(unit) }
}

fn decode_payload(pid: u8, data: &[u8]) -> (r: Option<Decoded>)
    ensures
        match payload_formula(pid, data@) {
            Some(f) => r matches Some(d) && d.name@ == f.name && d.value == f.value && d.unit@
                == f.unit,
            None => r is None,
        },
{
    if data.len() == 0 {
        return None;
    }
    let a: i64 = data[0] as i64;
    let b: i64 = if data.len() >= 2 {
        data[1] as i64
    } else {
        0
    };
    let two = data.len() >= 2;
    let ab: i64 = a * 256 + b;
    if pid == 0x04 {
        Some(make_reading("engine_load", 100*a, 255, "%"))
    } else if pid == 0x05 {
        Some(make_reading("coolant_temp", a - 40, 1, "C"))
    } else if pid == 0x06 {
        Some(make_reading("stft_bank1", (a - 128)*100, 128, "%"))
    } else if pid == 0x07 {
        Some(make_reading("ltft_bank1", (a - 128)*100, 128, "%"))
    } else if pid == 0x08 {
        Some(make_reading("stft_bank2", (a - 128)*100, 128, "%"))
    } else if pid == 0x09 {
        Some(make_reading("ltft_bank2", (a - 128)*100, 128, "%"))
    } else if pid == 0x0A {
        Some(make_reading("fuel_pressure", 3*a, 1, "kPa"))
    } else if pid == 0x0B {
        Some(make_reading("map", a, 1, "kPa"))
    } else if pid == 0x0C && two {
        Some(make_reading("engine_rpm", ab, 4, "rpm"))
    } else if pid == 0x0D {
        Some(make_reading("vehicle_speed", a, 1, "km/h"))
    } else if pid == 0x0E {
        Some(make_reading("timing_advance", a - 128, 2, "deg"))
    } else if pid == 0x0F {
        Some(make_reading("intake_temp", a - 40, 1, "C"))
    } else if pid == 0x10 && two {
        Some(make_reading("maf", ab, 100, "g/s"))
    } else if pid == 0x11 {
        Some(make_reading("throttle", 100*a, 255, "%"))
    } else if pid == 0x1C {
        Some(make_reading("obd_standard", a, 1, "code"))
    } else if pid == 0x1F && two {
        Some(make_reading("run_time", ab, 1, "s"))
    } else if pid == 0x21 && two {
        Some(make_reading("distance_mil", ab, 1, "km"))
    } else if pid == 0x22 && two {
        Some(make_reading("fuel_rail_rel", 79*ab, 1000, "kPa"))
    } else if pid == 0x23 && two {
        Some(make_reading("fuel_rail_gauge", 10*ab, 1, "kPa"))
    } else if pid == 0x2C {
        Some(make_reading("commanded_egr", 100*a, 255, "%"))
    } else if pid == 0x2D {
        Some(make_reading("egr_error", (a - 128)*100, 128, "%"))
    } else if pid == 0x2E {
        Some(make_reading("commanded_evap", 100*a, 255, "%"))
    } else if pid == 0x2F {
        Some(make_reading("fuel_level", 100*a, 255, "%"))
    } else if pid == 0x30 {
        Some(make_reading("warmups_since_clear", a, 1, "count"))
    } else if pid == 0x31 && two {
        Some(make_reading("distance_clear", ab, 1, "km"))
    } else if pid == 0x33 {
        Some(make_reading("baro", a, 1, "kPa"))
    } else if pid == 0x42 && two {
        Some(make_reading("control_module_voltage", ab, 1000, "V"))
    } else if pid == 0x43 && two {
        Some(make_reading("abs_load", 100*ab, 255, "%"))
    } else if pid == 0x44 && two {
        Some(make_reading("cmd_equiv_ratio", ab, 32768, "ratio"))
    } else if pid == 0x45 {
        Some(make_reading("relative_throttle", 100*a, 255, "%"))
    } else if pid == 0x46 {
        Some(make_reading("ambient_temp", a - 40, 1, "C"))
    } else if pid == 0x47 {
        Some(make_reading("abs_throttle_b", 100*a, 255, "%"))
    } else if pid == 0x49 {
        Some(make_reading("accel_pedal_d", 100*a, 255, "%"))
    } else if pid == 0x4A {
        Some(make_reading("accel_pedal_e", 100*a, 255, "%"))
    } else if pid == 0x4C {
        Some(make_reading("commanded_throttle", 100*a, 255, "%"))
    } else if pid == 0x51 {
        Some(make_reading("fuel_type", a, 1, "code"))
    } else if pid == 0x52 {
        Some(make_reading("ethanol_fuel", 100*a, 255, "%"))
    } else if pid == 0x5A {
        Some(make_reading("rel_accel_pedal", 100*a, 255, "%"))
    } else if pid == 0x5B {
        Some(make_reading("hybrid_battery", 100*a, 255, "%"))
    } else if pid == 0x5C {
        Some(make_reading("oil_temp", a - 40, 1, "C"))
    } else if pid == 0x5E && two {
        Some(make_reading("fuel_rate", ab, 20, "L/h"))
    } else if pid == 0x61 {
        Some(make_reading("driver_demand_torque", a - 125, 1, "%"))
    } else if pid == 0x62 {
        Some(make_reading("actual_engine_torque", a - 125, 1, "%"))
    } else if pid == 0x63 && two {
        Some(make_reading("engine_ref_torque", ab, 1, "Nm"))
    } else {
        None
    }
}

/// Whether a trimmed response line can carry data.
pub open spec fn usable_line(l: Seq<char>) -> bool {
    l.len() > 0 && !starts_with(l, "SEARCHING"@) && !contains(l, "NO DATA"@) && !contains(
        l,
        "UNABLE"@,
    ) && !contains(l, "STOPPED"@) && !contains(l, "ERROR"@)
}

/// The last usable line, trimmed.
pub open spec fn last_usable(ls: Seq<Seq<char>>) -> Option<Seq<char>>
    decreases ls.len(),
{
    if ls.len() == 0 {
        None
    } else if usable_line(trim(ls.last())) {
        Some(trim(ls.last()))
    } else {
        last_usable(ls.drop_last())
    }
}

/// Upper-case hex of a byte sequence, two digits per byte.
pub open spec fn hex_of_bytes(d: Seq<u8>) -> Seq<char>
    decreases d.len(),
{
    if d.len() == 0 {
        Seq::empty()
    } else {
        hex_of_bytes(d.drop_last()) + hex2(d.last())
    }
}

/// The mode byte of a positive response (`0x40` added by the ECU), wrapping.
pub open spec fn response_mode(b0: u8) -> u8 {
    if b0 >= 0x40 {
        (b0 - 0x40) as u8
    } else {
        (b0 + 0xC0) as u8
    }
}

/// Where the data bytes of a response start: after the service and PID bytes,
/// and for a Mode 02 (freeze frame) reply also after the frame number.
pub open spec fn data_start(mode: u8) -> int {
    if mode == 0x02 {
        3
    } else {
        2
    }
}

/// What a Mode 01/02 response decodes to, when it decodes.
pub open spec fn decode_spec(response: Seq<char>, expect_pid: Option<u8>) -> Option<
    LiveValueView,
> {
    match last_usable(lines(response)) {
        None => None,
        Some(line) => match hex_bytes_spec(line) {
            None => None,
            Some(bytes) => if bytes.len() < 3 {
                None
            } else {
                let mode = response_mode(bytes[0]);
                let pid = bytes[1];
                if expect_pid matches Some(ep) && pid != ep {
                    None
                } else {
                    let data = bytes.subrange(data_start(mode), bytes.len() as int);
                    match payload_formula(pid, data) {
                        Some(f) => Some(
                            LiveValueView {
                                mode,
                                pid,
                                name: f.name,
                                value: f.value,
                                unit: f.unit,
                                raw_hex: keep_hex(line),
                            },
                        ),
                        None => Some(
                            LiveValueView {
                                mode,
                                pid,
                                name: "pid_"@ + hex2(mode) + "_"@ + hex2(pid),
                                value: Fraction { num: 0, den: 1 },
                                unit: "raw"@,
                                raw_hex: if data.len() == 0 {
                                    keep_hex(line)
                                } else {
                                    hex_of_bytes(data)
                                },
                            },
                        ),
                    }
                }
            },
        },
    }
}

/// Why a response that does not decode was refused: no usable line, an odd
/// number of hex digits, fewer than three bytes, or another PID than expected.
pub open spec fn decode_error(response: Seq<char>, expect_pid: Option<u8>) -> Seq<char> {
    match last_usable(lines(response)) {
        None => "empty or error response: "@ + debug_text(response),
        Some(line) => match hex_bytes_spec(line) {
            None => odd_hex_message(line),
            Some(bytes) => if bytes.len() < 3 {
                "response too short: "@ + line
            } else {
                match expect_pid {
                    Some(ep) => "PID mismatch: expected "@ + hex2(ep) + ", got "@ + hex2(bytes[1]),
                    None => Seq::empty(),
                }
            },
        },
    }
}

fn usable(l: &Vec<char>) -> (r: bool)
    ensures
        r == usable_line(l@),
{
    l.len() > 0 && !starts_with_chars(l, &chars_of("SEARCHING")) && !contains_chars(
        l,
        &chars_of("NO DATA"),
    ) && !contains_chars(l, &chars_of("UNABLE")) && !contains_chars(l, &chars_of("STOPPED"))
        && !contains_chars(l, &chars_of("ERROR"))
}

fn last_usable_line(ls: &Vec<Vec<char>>) -> (r: Option<Vec<char>>)
    ensures
        match last_usable(cviews(ls@)) {
            Some(l) => r matches Some(v) && v@ == l,
            None => r is None,
        },
{
    let mut found: Option<Vec<char>> = None;
    let mut i: usize = 0;
    while i < ls.len()
        invariant
            i <= ls@.len(),
            match last_usable(cviews(ls@).subrange(0, i as int)) {
                Some(l) => found matches Some(v) && v@ == l,
                None => found is None,
            },
        decreases ls@.len() - i,
    {
        let t = trim_chars(&ls[i]);
        proof {
            let pre = cviews(ls@).subrange(0, i + 1);
            assert(pre.drop_last() =~= cviews(ls@).subrange(0, i as int));
            assert(pre.last() == ls@[i as int]@);
        }
        if usable(&t) {
            found = Some(t);
        }
        i += 1;
    }
    assert(cviews(ls@).subrange(0, ls@.len() as int) =~= cviews(ls@));
    found
}

fn bytes_hex(d: &[u8]) -> (r: String)
    ensures
        r@ == hex_of_bytes(d@),
{
    let mut r = String::new();
    for i in 0..d.len()
        invariant
            r@ == hex_of_bytes(d@.subrange(0, i as int)),
    {
        proof {
            let pre = d@.subrange(0, i + 1);
            assert(pre.drop_last() =~= d@.subrange(0, i as int));
        }
        append_hex2(&mut r, d[i]);
    }
    assert(d@.subrange(0, d@.len() as int) =~= d@);
    r
}

/// Decode a Mode 01 or Mode 02 response for a known PID; a Mode 02 reply
/// carries the freeze-frame number before its data.
pub fn decode_mode_pid(response: &str, expect_mode: u8, expect_pid: Option<u8>) -> (r: Result<
    LiveValue,
    Error,
>)
    ensures
        match decode_spec(response@, expect_pid) {
            Some(v) => r matches Ok(x) && x@ == v,
            None => r matches Err(Error::Decode(m)) && m@ == decode_error(response@, expect_pid),
        },
{
    let all = chars_of(response);
    let ls = lines_of(&all);
    let line = match last_usable_line(&ls) {
        Some(l) => l,
        None => {
            let q = debug_quoted(response);
            return Err(Error::Decode(concat("empty or error response: ", q.as_str())));
        },
    };
    let line_text = string_of(&line);
    let bytes = match hex_bytes_of_chars(&line, line_text.as_str()) {
        Ok(b) => b,
        Err(e) => return Err(e),
    };
    if bytes.len() < 3 {
        return Err(Error::Decode(concat("response too short: ", line_text.as_str())));
    }
    let mode: u8 = bytes[0].wrapping_sub(0x40);
    let pid: u8 = bytes[1];
    if let Some(ep) = expect_pid {
        if pid != ep {
            let mut m = owned("PID mismatch: expected ");
            append_hex2(&mut m, ep);
            push_str(&mut m, ", got ");
            append_hex2(&mut m, pid);
            return Err(Error::Decode(m));
        }
    }
    let start: usize = if mode == 0x02 {
        3
    } else {
        2
    };
    let data = slice_from(&bytes, start);
    match decode_payload(pid, data.as_slice()) {
        Some(d) => Ok(
            LiveValue {
                mode,
                pid,
                name: d.name,
                value: d.value,
                unit: d.unit,
                raw_hex: string_of(&hex_digits_of(&line)),
            },
        ),
        None => {
            let mut name = owned("pid_");
            append_hex2(&mut name, mode);
            push_str(&mut name, "_");
            append_hex2(&mut name, pid);
            let raw_hex = if data.len() == 0 {
                string_of(&hex_digits_of(&line))
            } else {
                bytes_hex(data.as_slice())
            };
            Ok(
                LiveValue {
                    mode,
                    pid,
                    name,
                    value: Fraction { num: 0, den: 1 },
                    unit: owned("raw"),
                    raw_hex,
                },
            )
        },
    }
}

fn slice_from(b: &Vec<u8>, from: usize) -> (r: Vec<u8>)
    requires
        from <= b@.len(),
    ensures
        r@ == b@.subrange(from as int, b@.len() as int),
{
    let mut r: Vec<u8> = Vec::new();
    let mut k: usize = from;
    while k < b.len()
        invariant
            from <= k <= b@.len(),
            r@ == b@.subrange(from as int, k as int),
        decreases b@.len() - k,
    {
        r.push(b[k]);
        k += 1;
        assert(r@ =~= b@.subrange(from as int, k as int));
    }
    r
}

/// The catalog of PIDs this library decodes, with name and unit.
pub open spec fn pid_catalog() -> Seq<(u8, Seq<char>, Seq<char>)> {
    seq![
        (0x04u8, "engine_load"@, "%"@),
        (0x05u8, "coolant_temp"@, "C"@),
        (0x06u8, "stft_bank1"@, "%"@),
        (0x07u8, "ltft_bank1"@, "%"@),
        (0x0Au8, "fuel_pressure"@, "kPa"@),
        (0x0Bu8, "map"@, "kPa"@),
        (0x0Cu8, "engine_rpm"@, "rpm"@),
        (0x0Du8, "vehicle_speed"@, "km/h"@),
        (0x0Eu8, "timing_advance"@, "deg"@),
        (0x0Fu8, "intake_temp"@, "C"@),
        (0x10u8, "maf"@, "g/s"@),
        (0x11u8, "throttle"@, "%"@),
        (0x1Fu8, "run_time"@, "s"@),
        (0x21u8, "distance_mil"@, "km"@),
        (0x2Fu8, "fuel_level"@, "%"@),
        (0x31u8, "distance_clear"@, "km"@),
        (0x33u8, "baro"@, "kPa"@),
        (0x42u8, "control_module_voltage"@, "V"@),
        (0x43u8, "abs_load"@, "%"@),
        (0x45u8, "relative_throttle"@, "%"@),
        (0x46u8, "ambient_temp"@, "C"@),
        (0x47u8, "abs_throttle_b"@, "%"@),
        (0x49u8, "accel_pedal_d"@, "%"@),
        (0x4Au8, "accel_pedal_e"@, "%"@),
        (0x4Cu8, "commanded_throttle"@, "%"@),
        (0x51u8, "fuel_type"@, "code"@),
        (0x5Cu8, "oil_temp"@, "C"@),
        (0x5Eu8, "fuel_rate"@, "L/h"@),
        (0x61u8, "driver_demand_torque"@, "%"@),
        (0x62u8, "actual_engine_torque"@, "%"@),
        (0x63u8, "engine_ref_torque"@, "Nm"@)
    ]
}

/// Catalog of PIDs we know how to decode (for dashboards / docs).
pub fn known_pid_catalog() -> (r: Vec<(u8, &'static str, &'static str)>)
    ensures
        r@.map_values(|e: (u8, &'static str, &'static str)| (e.0, e.1@, e.2@)) == pid_catalog(),
{
    let mut v: Vec<(u8, &'static str, &'static str)> = Vec::new();
    v.push((0x04u8, "engine_load", "%"));
    v.push((0x05u8, "coolant_temp", "C"));
    v.push((0x06u8, "stft_bank1", "%"));
    v.push((0x07u8, "ltft_bank1", "%"));
    v.push((0x0Au8, "fuel_pressure", "kPa"));
    v.push((0x0Bu8, "map", "kPa"));
    v.push((0x0Cu8, "engine_rpm", "rpm"));
    v.push((0x0Du8, "vehicle_speed", "km/h"));
    v.push((0x0Eu8, "timing_advance", "deg"));
    v.push((0x0Fu8, "intake_temp", "C"));
    v.push((0x10u8, "maf", "g/s"));
    v.push((0x11u8, "throttle", "%"));
    v.push((0x1Fu8, "run_time", "s"));
    v.push((0x21u8, "distance_mil", "km"));
    v.push((0x2Fu8, "fuel_level", "%"));
    v.push((0x31u8, "distance_clear", "km"));
    v.push((0x33u8, "baro", "kPa"));
    v.push((0x42u8, "control_module_voltage", "V"));
    v.push((0x43u8, "abs_load", "%"));
    v.push((0x45u8, "relative_throttle", "%"));
    v.push((0x46u8, "ambient_temp", "C"));
    v.push((0x47u8, "abs_throttle_b", "%"));
    v.push((0x49u8, "accel_pedal_d", "%"));
    v.push((0x4Au8, "accel_pedal_e", "%"));
    v.push((0x4Cu8, "commanded_throttle", "%"));
    v.push((0x51u8, "fuel_type", "code"));
    v.push((0x5Cu8, "oil_temp", "C"));
    v.push((0x5Eu8, "fuel_rate", "L/h"));
    v.push((0x61u8, "driver_demand_torque", "%"));
    v.push((0x62u8, "actual_engine_torque", "%"));
    v.push((0x63u8, "engine_ref_torque", "Nm"));
    assert(v@.map_values(|e: (u8, &'static str, &'static str)| (e.0, e.1@, e.2@)) =~= pid_catalog());
    v
}

/// Every catalog entry is decoded, from two data bytes, under the catalog's
/// name and unit.
pub proof fn lemma_catalog_entries_decode(k: int, a: u8, b: u8)
    requires
        0 <= k < pid_catalog().len(),
    ensures
        payload_formula(pid_catalog()[k].0, seq![a, b]) matches Some(f) && f.name
            == pid_catalog()[k].1 && f.unit == pid_catalog()[k].2,
{
}

} // verus!

verus! {

proof fn lemma_hex_char(v: int)
    requires
        0 <= v < 16,
    ensures
        crate::text::is_hex_digit(crate::text::hex_char(v)),
        crate::text::hex_value(crate::text::hex_char(v)) == v,
{
}

proof fn lemma_hex_of_bytes(d: Seq<u8>)
    ensures
        hex_of_bytes(d).len() == 2 * d.len(),
        forall|i: int|
            0 <= i < d.len() ==> hex_of_bytes(d)[2 * i] == crate::text::hex_char(d[i] as int / 16)
                && hex_of_bytes(d)[2 * i + 1] == crate::text::hex_char(d[i] as int % 16),
        forall|j: int|
            0 <= j < hex_of_bytes(d).len() ==> crate::text::is_hex_digit(#[trigger] hex_of_bytes(d)[j]),
    decreases d.len(),
{
    if d.len() > 0 {
        let p = d.drop_last();
        lemma_hex_of_bytes(p);
        let b = d.last();
        lemma_hex_char(b as int / 16);
        lemma_hex_char(b as int % 16);
        let h = hex_of_bytes(d);
        assert(h == hex_of_bytes(p) + hex2(b));
        assert forall|i: int| 0 <= i < d.len() implies h[2 * i] == crate::text::hex_char(
            d[i] as int / 16,
        ) && h[2 * i + 1] == crate::text::hex_char(d[i] as int % 16) by {
            if i < p.len() {
                assert(d[i] == p[i]);
            }
        }
        assert forall|j: int| 0 <= j < h.len() implies crate::text::is_hex_digit(#[trigger] h[j]) by {
            if j < hex_of_bytes(p).len() {
                assert(h[j] == hex_of_bytes(p)[j]);
            }
        }
    }
}

/// Bytes written as upper-case hex, two digits each, parse back to the same
/// bytes.
pub proof fn lemma_hex_round_trip(d: Seq<u8>)
    ensures
        hex_bytes_spec(hex_of_bytes(d)) == Some(d),
{
    let h = hex_of_bytes(d);
    lemma_hex_of_bytes(d);
    crate::text::lemma_keep_hex_of_hex(h);
    assert forall|i: int| 0 <= i < d.len() implies #[trigger] crate::j1979::pid::hex_pairs(h)[i]
        == d[i] by {
        lemma_hex_char(d[i] as int / 16);
        lemma_hex_char(d[i] as int % 16);
        assert(d[i] as int == (d[i] as int / 16) * 16 + d[i] as int % 16);
    }
    assert(crate::j1979::pid::hex_pairs(h) =~= d);
}

/// The Mode 01 request for a PID is the two bytes `01` and the PID.
pub proof fn lemma_mode01_command_bytes(pid: u8)
    ensures
        hex_bytes_spec("01"@ + hex2(pid)) == Some(seq![0x01u8, pid]),
{
    reveal_strlit("01");
    assert(hex_of_bytes(seq![0x01u8, pid]) =~= "01"@ + hex2(pid)) by {
        assert(seq![0x01u8, pid].drop_last() =~= seq![0x01u8]);
        assert(seq![0x01u8].drop_last() =~= Seq::<u8>::empty());
        assert(hex_of_bytes(Seq::<u8>::empty()) =~= Seq::<char>::empty());
        assert(seq![0x01u8].last() == 0x01u8);
        assert(hex_of_bytes(seq![0x01u8]) == hex_of_bytes(Seq::<u8>::empty()) + hex2(0x01));
        assert(hex_of_bytes(seq![0x01u8]) =~= hex2(0x01));
        assert(hex2(0x01) =~= "01"@);
    }
    lemma_hex_round_trip(seq![0x01u8, pid]);
}

} // verus!

verus! {

proof fn lemma_no_newline(h: Seq<char>, i: int)
    requires
        0 <= i,
        forall|j: int| 0 <= j < h.len() ==> crate::text::is_hex_digit(#[trigger] h[j]),
    ensures
        crate::text::next_newline(h, i) == h.len(),
    decreases h.len() - i,
{
    if i < h.len() {
        assert(crate::text::is_hex_digit(h[i]));
        lemma_no_newline(h, i + 1);
    }
}

proof fn lemma_hex_free_of(h: Seq<char>, pat: Seq<char>, p: int)
    requires
        forall|j: int| 0 <= j < h.len() ==> crate::text::is_hex_digit(#[trigger] h[j]),
        0 <= p < pat.len(),
        !crate::text::is_hex_digit(pat[p]),
    ensures
        !contains(h, pat),
        !starts_with(h, pat),
{
    assert forall|i: int| !crate::text::occurs_at(h, pat, i) by {
        if crate::text::occurs_at(h, pat, i) {
            assert(h.subrange(i, i + pat.len())[p] == h[i + p]);
            assert(crate::text::is_hex_digit(h[i + p]));
        }
    }
}

/// A non-empty run of hex digits is a usable response line on its own.
proof fn lemma_hex_line_usable(h: Seq<char>)
    requires
        h.len() > 0,
        forall|j: int| 0 <= j < h.len() ==> crate::text::is_hex_digit(#[trigger] h[j]),
    ensures
        last_usable(lines(h)) == Some(h),
{
    lemma_no_newline(h, 0);
    assert(lines(h) =~= seq![h]) by {
        assert(h.subrange(0, h.len() as int) =~= h);
    }
    assert(crate::text::is_hex_digit(h[0]));
    assert(crate::text::is_hex_digit(h[h.len() - 1]));
    assert(crate::text::skip_white(h, 0) == 0);
    assert(crate::text::back_white(h, h.len() as int) == h.len());
    assert(trim(h) =~= h);
    reveal_strlit("SEARCHING");
    reveal_strlit("NO DATA");
    reveal_strlit("UNABLE");
    reveal_strlit("STOPPED");
    reveal_strlit("ERROR");
    lemma_hex_free_of(h, "SEARCHING"@, 0);
    lemma_hex_free_of(h, "NO DATA"@, 0);
    lemma_hex_free_of(h, "UNABLE"@, 0);
    lemma_hex_free_of(h, "STOPPED"@, 0);
    lemma_hex_free_of(h, "ERROR"@, 1);
    assert(seq![h].drop_last() =~= Seq::<Seq<char>>::empty());
}

/// Every PID of the catalog decodes under its listed name and unit: the
/// Mode 01 reply `41 <pid> <a> <b>` gives a Mode 01 reading of that PID.
pub proof fn lemma_catalog_pid_decodes(k: int, a: u8, b: u8)
    requires
        0 <= k < pid_catalog().len(),
    ensures
        decode_spec(hex_of_bytes(seq![0x41u8, pid_catalog()[k].0, a, b]), Some(pid_catalog()[k].0))
            matches Some(v) && v.mode == 0x01 && v.pid == pid_catalog()[k].0 && v.name
            == pid_catalog()[k].1 && v.unit == pid_catalog()[k].2,
{
    let p = pid_catalog()[k].0;
    let d = seq![0x41u8, p, a, b];
    let h = hex_of_bytes(d);
    lemma_hex_of_bytes(d);
    lemma_hex_line_usable(h);
    lemma_hex_round_trip(d);
    lemma_catalog_entries_decode(k, a, b);
    assert(d.subrange(data_start(0x01), d.len() as int) =~= seq![a, b]);
}

} // verus!

verus! {

/// Every entry of the built-in PID table is a Mode 01 PID that decodes under
/// the entry's name and unit.
pub proof fn lemma_standard_table_decodes(k: int, a: u8, b: u8)
    requires
        0 <= k < crate::j1979::pid::standard_pid_table().len(),
    ensures
        crate::j1979::pid::standard_pid_table()[k].mode == 0x01,
        decode_spec(
            hex_of_bytes(seq![0x41u8, crate::j1979::pid::standard_pid_table()[k].pid, a, b]),
            Some(crate::j1979::pid::standard_pid_table()[k].pid),
        ) matches Some(v) && v.mode == 0x01 && v.pid == crate::j1979::pid::standard_pid_table()[k].pid
            && v.name == crate::j1979::pid::standard_pid_table()[k].name && v.unit
            == crate::j1979::pid::standard_pid_table()[k].unit,
{
    let t = crate::j1979::pid::standard_pid_table()[k];
    let d = seq![0x41u8, t.pid, a, b];
    let h = hex_of_bytes(d);
    lemma_hex_of_bytes(d);
    lemma_hex_line_usable(h);
    lemma_hex_round_trip(d);
    assert(d.subrange(data_start(0x01), d.len() as int) =~= seq![a, b]);
    assert(payload_formula(t.pid, seq![a, b]) matches Some(f) && f.name == t.name && f.unit
        == t.unit);
}

/// The built-in PID table has sixteen entries, each PID once.
pub proof fn lemma_standard_table_distinct()
    ensures
        crate::j1979::pid::standard_pid_table().len() == 16,
        forall|i: int, j: int|
            0 <= i < j < 16 ==> crate::j1979::pid::standard_pid_table()[i].pid
                != crate::j1979::pid::standard_pid_table()[j].pid,
{
    let t = crate::j1979::pid::standard_pid_table();
    let ps = seq![
        0x0Cu8, 0x0D, 0x05, 0x0F, 0x11, 0x04, 0x0B, 0x10, 0x2F, 0x46, 0x42, 0x5C, 0x5E, 0x0E,
        0x33, 0x1F,
    ];
    assert forall|i: int| 0 <= i < 16 implies t[i].pid == ps[i] by {}
    assert forall|i: int, j: int| 0 <= i < j < 16 implies ps[i] != ps[j] by {}
}

} // verus!

verus! {

/// A decoded reply holds the reading `name` worth `num / den` in `unit`.
pub open spec fn reads(r: Option<LiveValueView>, name: Seq<char>, num: int, den: int, unit: Seq<char>) -> bool {
    r matches Some(v) && v.name == name && v.value.num == num && v.value.den == den && v.unit == unit
}

/// The SAE J1979 formulas of the decoded PIDs, for every pair of data bytes
/// `A B` of a Mode 01 reply `41 <pid> A B`: temperatures are `A - 40` C,
/// percentages `100 A / 255`, fuel trims `(A - 128) 100 / 128`, RPM
/// `(256 A + B) / 4`, and so on.
pub proof fn lemma_mode01_formulas(pid: u8, a: u8, b: u8)
    ensures
        pid == 0x04 ==> reads(decode_spec(hex_of_bytes(seq![0x41u8, pid, a, b]), Some(pid)), "engine_load"@, (100 * a) as int, 255, "%"@),
        pid == 0x05 ==> reads(decode_spec(hex_of_bytes(seq![0x41u8, pid, a, b]), Some(pid)), "coolant_temp"@, (a - 40) as int, 1, "C"@),
        pid == 0x06 ==> reads(decode_spec(hex_of_bytes(seq![0x41u8, pid, a, b]), Some(pid)), "stft_bank1"@, ((a - 128) * 100) as int, 128, "%"@),
        pid == 0x07 ==> reads(decode_spec(hex_of_bytes(seq![0x41u8, pid, a, b]), Some(pid)), "ltft_bank1"@, ((a - 128) * 100) as int, 128, "%"@),
        pid == 0x08 ==> reads(decode_spec(hex_of_bytes(seq![0x41u8, pid, a, b]), Some(pid)), "stft_bank2"@, ((a - 128) * 100) as int, 128, "%"@),
        pid == 0x09 ==> reads(decode_spec(hex_of_bytes(seq![0x41u8, pid, a, b]), Some(pid)), "ltft_bank2"@, ((a - 128) * 100) as int, 128, "%"@),
        pid == 0x0A ==> reads(decode_spec(hex_of_bytes(seq![0x41u8, pid, a, b]), Some(pid)), "fuel_pressure"@, (3 * a) as int, 1, "kPa"@),
        pid == 0x0B ==> reads(decode_spec(hex_of_bytes(seq![0x41u8, pid, a, b]), Some(pid)), "map"@, (a) as int, 1, "kPa"@),
        pid == 0x0C ==> reads(decode_spec(hex_of_bytes(seq![0x41u8, pid, a, b]), Some(pid)), "engine_rpm"@, (a * 256 + b) as int, 4, "rpm"@),
        pid == 0x0D ==> reads(decode_spec(hex_of_bytes(seq![0x41u8, pid, a, b]), Some(pid)), "vehicle_speed"@, (a) as int, 1, "km/h"@),
        pid == 0x0E ==> reads(decode_spec(hex_of_bytes(seq![0x41u8, pid, a, b]), Some(pid)), "timing_advance"@, (a - 128) as int, 2, "deg"@),
        pid == 0x0F ==> reads(decode_spec(hex_of_bytes(seq![0x41u8, pid, a, b]), Some(pid)), "intake_temp"@, (a - 40) as int, 1, "C"@),
        pid == 0x10 ==> reads(decode_spec(hex_of_bytes(seq![0x41u8, pid, a, b]), Some(pid)), "maf"@, (a * 256 + b) as int, 100, "g/s"@),
        pid == 0x11 ==> reads(decode_spec(hex_of_bytes(seq![0x41u8, pid, a, b]), Some(pid)), "throttle"@, (100 * a) as int, 255, "%"@),
        pid == 0x1C ==> reads(decode_spec(hex_of_bytes(seq![0x41u8, pid, a, b]), Some(pid)), "obd_standard"@, (a) as int, 1, "code"@),
        pid == 0x1F ==> reads(decode_spec(hex_of_bytes(seq![0x41u8, pid, a, b]), Some(pid)), "run_time"@, (a * 256 + b) as int, 1, "s"@),
        pid == 0x21 ==> reads(decode_spec(hex_of_bytes(seq![0x41u8, pid, a, b]), Some(pid)), "distance_mil"@, (a * 256 + b) as int, 1, "km"@),
        pid == 0x22 ==> reads(decode_spec(hex_of_bytes(seq![0x41u8, pid, a, b]), Some(pid)), "fuel_rail_rel"@, (79 * (a * 256 + b)) as int, 1000, "kPa"@),
        pid == 0x23 ==> reads(decode_spec(hex_of_bytes(seq![0x41u8, pid, a, b]), Some(pid)), "fuel_rail_gauge"@, (10 * (a * 256 + b)) as int, 1, "kPa"@),
        pid == 0x2C ==> reads(decode_spec(hex_of_bytes(seq![0x41u8, pid, a, b]), Some(pid)), "commanded_egr"@, (100 * a) as int, 255, "%"@),
        pid == 0x2D ==> reads(decode_spec(hex_of_bytes(seq![0x41u8, pid, a, b]), Some(pid)), "egr_error"@, ((a - 128) * 100) as int, 128, "%"@),
        pid == 0x2E ==> reads(decode_spec(hex_of_bytes(seq![0x41u8, pid, a, b]), Some(pid)), "commanded_evap"@, (100 * a) as int, 255, "%"@),
        pid == 0x2F ==> reads(decode_spec(hex_of_bytes(seq![0x41u8, pid, a, b]), Some(pid)), "fuel_level"@, (100 * a) as int, 255, "%"@),
        pid == 0x30 ==> reads(decode_spec(hex_of_bytes(seq![0x41u8, pid, a, b]), Some(pid)), "warmups_since_clear"@, (a) as int, 1, "count"@),
        pid == 0x31 ==> reads(decode_spec(hex_of_bytes(seq![0x41u8, pid, a, b]), Some(pid)), "distance_clear"@, (a * 256 + b) as int, 1, "km"@),
        pid == 0x33 ==> reads(decode_spec(hex_of_bytes(seq![0x41u8, pid, a, b]), Some(pid)), "baro"@, (a) as int, 1, "kPa"@),
        pid == 0x42 ==> reads(decode_spec(hex_of_bytes(seq![0x41u8, pid, a, b]), Some(pid)), "control_module_voltage"@, (a * 256 + b) as int, 1000, "V"@),
        pid == 0x43 ==> reads(decode_spec(hex_of_bytes(seq![0x41u8, pid, a, b]), Some(pid)), "abs_load"@, (100 * (a * 256 + b)) as int, 255, "%"@),
        pid == 0x44 ==> reads(decode_spec(hex_of_bytes(seq![0x41u8, pid, a, b]), Some(pid)), "cmd_equiv_ratio"@, (a * 256 + b) as int, 32768, "ratio"@),
        pid == 0x45 ==> reads(decode_spec(hex_of_bytes(seq![0x41u8, pid, a, b]), Some(pid)), "relative_throttle"@, (100 * a) as int, 255, "%"@),
        pid == 0x46 ==> reads(decode_spec(hex_of_bytes(seq![0x41u8, pid, a, b]), Some(pid)), "ambient_temp"@, (a - 40) as int, 1, "C"@),
        pid == 0x47 ==> reads(decode_spec(hex_of_bytes(seq![0x41u8, pid, a, b]), Some(pid)), "abs_throttle_b"@, (100 * a) as int, 255, "%"@),
        pid == 0x49 ==> reads(decode_spec(hex_of_bytes(seq![0x41u8, pid, a, b]), Some(pid)), "accel_pedal_d"@, (100 * a) as int, 255, "%"@),
        pid == 0x4A ==> reads(decode_spec(hex_of_bytes(seq![0x41u8, pid, a, b]), Some(pid)), "accel_pedal_e"@, (100 * a) as int, 255, "%"@),
        pid == 0x4C ==> reads(decode_spec(hex_of_bytes(seq![0x41u8, pid, a, b]), Some(pid)), "commanded_throttle"@, (100 * a) as int, 255, "%"@),
        pid == 0x51 ==> reads(decode_spec(hex_of_bytes(seq![0x41u8, pid, a, b]), Some(pid)), "fuel_type"@, (a) as int, 1, "code"@),
        pid == 0x52 ==> reads(decode_spec(hex_of_bytes(seq![0x41u8, pid, a, b]), Some(pid)), "ethanol_fuel"@, (100 * a) as int, 255, "%"@),
        pid == 0x5A ==> reads(decode_spec(hex_of_bytes(seq![0x41u8, pid, a, b]), Some(pid)), "rel_accel_pedal"@, (100 * a) as int, 255, "%"@),
        pid == 0x5B ==> reads(decode_spec(hex_of_bytes(seq![0x41u8, pid, a, b]), Some(pid)), "hybrid_battery"@, (100 * a) as int, 255, "%"@),
        pid == 0x5C ==> reads(decode_spec(hex_of_bytes(seq![0x41u8, pid, a, b]), Some(pid)), "oil_temp"@, (a - 40) as int, 1, "C"@),
        pid == 0x5E ==> reads(decode_spec(hex_of_bytes(seq![0x41u8, pid, a, b]), Some(pid)), "fuel_rate"@, (a * 256 + b) as int, 20, "L/h"@),
        pid == 0x61 ==> reads(decode_spec(hex_of_bytes(seq![0x41u8, pid, a, b]), Some(pid)), "driver_demand_torque"@, (a - 125) as int, 1, "%"@),
        pid == 0x62 ==> reads(decode_spec(hex_of_bytes(seq![0x41u8, pid, a, b]), Some(pid)), "actual_engine_torque"@, (a - 125) as int, 1, "%"@),
        pid == 0x63 ==> reads(decode_spec(hex_of_bytes(seq![0x41u8, pid, a, b]), Some(pid)), "engine_ref_torque"@, (a * 256 + b) as int, 1, "Nm"@),
{
    let d = seq![0x41u8, pid, a, b];
    let h = hex_of_bytes(d);
    lemma_hex_of_bytes(d);
    lemma_hex_line_usable(h);
    lemma_hex_round_trip(d);
    assert(d.subrange(data_start(0x01), d.len() as int) =~= seq![a, b]);
}

/// The same formulas for replies with one data byte `41 <pid> A`, for the
/// PIDs that need only `A`: every intake, coolant, ambient or oil reading is
/// `A - 40` C.
pub proof fn lemma_mode01_one_byte_formulas(pid: u8, a: u8)
    ensures
        pid == 0x04 ==> reads(decode_spec(hex_of_bytes(seq![0x41u8, pid, a]), Some(pid)), "engine_load"@, (100 * a) as int, 255, "%"@),
        pid == 0x05 ==> reads(decode_spec(hex_of_bytes(seq![0x41u8, pid, a]), Some(pid)), "coolant_temp"@, (a - 40) as int, 1, "C"@),
        pid == 0x06 ==> reads(decode_spec(hex_of_bytes(seq![0x41u8, pid, a]), Some(pid)), "stft_bank1"@, ((a - 128) * 100) as int, 128, "%"@),
        pid == 0x07 ==> reads(decode_spec(hex_of_bytes(seq![0x41u8, pid, a]), Some(pid)), "ltft_bank1"@, ((a - 128) * 100) as int, 128, "%"@),
        pid == 0x08 ==> reads(decode_spec(hex_of_bytes(seq![0x41u8, pid, a]), Some(pid)), "stft_bank2"@, ((a - 128) * 100) as int, 128, "%"@),
        pid == 0x09 ==> reads(decode_spec(hex_of_bytes(seq![0x41u8, pid, a]), Some(pid)), "ltft_bank2"@, ((a - 128) * 100) as int, 128, "%"@),
        pid == 0x0A ==> reads(decode_spec(hex_of_bytes(seq![0x41u8, pid, a]), Some(pid)), "fuel_pressure"@, (3 * a) as int, 1, "kPa"@),
        pid == 0x0B ==> reads(decode_spec(hex_of_bytes(seq![0x41u8, pid, a]), Some(pid)), "map"@, (a) as int, 1, "kPa"@),
        pid == 0x0D ==> reads(decode_spec(hex_of_bytes(seq![0x41u8, pid, a]), Some(pid)), "vehicle_speed"@, (a) as int, 1, "km/h"@),
        pid == 0x0E ==> reads(decode_spec(hex_of_bytes(seq![0x41u8, pid, a]), Some(pid)), "timing_advance"@, (a - 128) as int, 2, "deg"@),
        pid == 0x0F ==> reads(decode_spec(hex_of_bytes(seq![0x41u8, pid, a]), Some(pid)), "intake_temp"@, (a - 40) as int, 1, "C"@),
        pid == 0x11 ==> reads(decode_spec(hex_of_bytes(seq![0x41u8, pid, a]), Some(pid)), "throttle"@, (100 * a) as int, 255, "%"@),
        pid == 0x1C ==> reads(decode_spec(hex_of_bytes(seq![0x41u8, pid, a]), Some(pid)), "obd_standard"@, (a) as int, 1, "code"@),
        pid == 0x2C ==> reads(decode_spec(hex_of_bytes(seq![0x41u8, pid, a]), Some(pid)), "commanded_egr"@, (100 * a) as int, 255, "%"@),
        pid == 0x2D ==> reads(decode_spec(hex_of_bytes(seq![0x41u8, pid, a]), Some(pid)), "egr_error"@, ((a - 128) * 100) as int, 128, "%"@),
        pid == 0x2E ==> reads(decode_spec(hex_of_bytes(seq![0x41u8, pid, a]), Some(pid)), "commanded_evap"@, (100 * a) as int, 255, "%"@),
        pid == 0x2F ==> reads(decode_spec(hex_of_bytes(seq![0x41u8, pid, a]), Some(pid)), "fuel_level"@, (100 * a) as int, 255, "%"@),
        pid == 0x30 ==> reads(decode_spec(hex_of_bytes(seq![0x41u8, pid, a]), Some(pid)), "warmups_since_clear"@, (a) as int, 1, "count"@),
        pid == 0x33 ==> reads(decode_spec(hex_of_bytes(seq![0x41u8, pid, a]), Some(pid)), "baro"@, (a) as int, 1, "kPa"@),
        pid == 0x45 ==> reads(decode_spec(hex_of_bytes(seq![0x41u8, pid, a]), Some(pid)), "relative_throttle"@, (100 * a) as int, 255, "%"@),
        pid == 0x46 ==> reads(decode_spec(hex_of_bytes(seq![0x41u8, pid, a]), Some(pid)), "ambient_temp"@, (a - 40) as int, 1, "C"@),
        pid == 0x47 ==> reads(decode_spec(hex_of_bytes(seq![0x41u8, pid, a]), Some(pid)), "abs_throttle_b"@, (100 * a) as int, 255, "%"@),
        pid == 0x49 ==> reads(decode_spec(hex_of_bytes(seq![0x41u8, pid, a]), Some(pid)), "accel_pedal_d"@, (100 * a) as int, 255, "%"@),
        pid == 0x4A ==> reads(decode_spec(hex_of_bytes(seq![0x41u8, pid, a]), Some(pid)), "accel_pedal_e"@, (100 * a) as int, 255, "%"@),
        pid == 0x4C ==> reads(decode_spec(hex_of_bytes(seq![0x41u8, pid, a]), Some(pid)), "commanded_throttle"@, (100 * a) as int, 255, "%"@),
        pid == 0x51 ==> reads(decode_spec(hex_of_bytes(seq![0x41u8, pid, a]), Some(pid)), "fuel_type"@, (a) as int, 1, "code"@),
        pid == 0x52 ==> reads(decode_spec(hex_of_bytes(seq![0x41u8, pid, a]), Some(pid)), "ethanol_fuel"@, (100 * a) as int, 255, "%"@),
        pid == 0x5A ==> reads(decode_spec(hex_of_bytes(seq![0x41u8, pid, a]), Some(pid)), "rel_accel_pedal"@, (100 * a) as int, 255, "%"@),
        pid == 0x5B ==> reads(decode_spec(hex_of_bytes(seq![0x41u8, pid, a]), Some(pid)), "hybrid_battery"@, (100 * a) as int, 255, "%"@),
        pid == 0x5C ==> reads(decode_spec(hex_of_bytes(seq![0x41u8, pid, a]), Some(pid)), "oil_temp"@, (a - 40) as int, 1, "C"@),
        pid == 0x61 ==> reads(decode_spec(hex_of_bytes(seq![0x41u8, pid, a]), Some(pid)), "driver_demand_torque"@, (a - 125) as int, 1, "%"@),
        pid == 0x62 ==> reads(decode_spec(hex_of_bytes(seq![0x41u8, pid, a]), Some(pid)), "actual_engine_torque"@, (a - 125) as int, 1, "%"@),
{
    let d = seq![0x41u8, pid, a];
    let h = hex_of_bytes(d);
    lemma_hex_of_bytes(d);
    lemma_hex_line_usable(h);
    lemma_hex_round_trip(d);
    assert(d.subrange(data_start(0x01), d.len() as int) =~= seq![a]);
}

/// A freeze-frame reply `42 <pid> <frame> A B` reads as the live reply
/// `41 <pid> A B`: same value and unit whatever the frame number, and the same
/// name for every PID that has a formula (one read `raw`, with no formula, is
/// named by its mode and PID).
pub proof fn lemma_mode02_reads_as_mode01(pid: u8, frame: u8, a: u8, b: u8)
    ensures
        decode_spec(hex_of_bytes(seq![0x42u8, pid, frame, a, b]), Some(pid)) matches Some(f)
            && decode_spec(hex_of_bytes(seq![0x41u8, pid, a, b]), Some(pid)) matches Some(l)
            && f.mode == 0x02 && l.mode == 0x01 && f.pid == pid && l.pid == pid && f.value
            == l.value && f.unit == l.unit && (l.unit != "raw"@ ==> f.name == l.name),
{
    let d1 = seq![0x41u8, pid, a, b];
    let h1 = hex_of_bytes(d1);
    lemma_hex_of_bytes(d1);
    lemma_hex_line_usable(h1);
    lemma_hex_round_trip(d1);
    let d2 = seq![0x42u8, pid, frame, a, b];
    let h2 = hex_of_bytes(d2);
    lemma_hex_of_bytes(d2);
    lemma_hex_line_usable(h2);
    lemma_hex_round_trip(d2);
    assert(d1.subrange(data_start(0x01), d1.len() as int) =~= seq![a, b]);
    assert(d2.subrange(data_start(0x02), d2.len() as int) =~= seq![a, b]);
}

} // verus!

verus! {

/// The letter of the system a DTC's first byte names (SAE J2012): its two
/// top bits `00`, `01`, `10`, `11` give `P`, `C`, `B`, `U`.
pub open spec fn j2012_letter(a: u8) -> char {
    if a < 0x40 {
        'P'
    } else if a < 0x80 {
        'C'
    } else if a < 0xC0 {
        'B'
    } else {
        'U'
    }
}

/// A stored-codes reply `43 A B` with one nonzero pair parses to one code:
/// its letter is the system of `A`'s top two bits, then the digit of bits 5-4
/// of `A`, the hex digit of `A`'s low nibble and the two hex digits of `B`,
/// e.g. `41 23` is `C0123` and `81 23` is `B0123`.
pub proof fn lemma_dtc_letters(a: u8, b: u8, status: crate::j1979::dtc::DtcStatus)
    requires
        !(a == 0 && b == 0),
    ensures
        crate::j1979::dtc::dtcs_spec(hex_of_bytes(seq![0x43u8, a, b]), status) matches Some(ds)
            && ds.len() == 1 && ds[0].code == seq![
            j2012_letter(a),
            ('0' as int + (a / 16) % 4) as char,
            crate::text::hex_char(a as int % 16),
        ] + hex2(b) && ds[0].status == status && ds[0].raw == hex2(a) + hex2(b),
{
    let d = seq![0x43u8, a, b];
    let h = hex_of_bytes(d);
    lemma_hex_of_bytes(d);
    lemma_hex_round_trip(d);
    crate::text::lemma_keep_hex_of_hex(h);
    reveal_strlit("NO DATA");
    lemma_hex_free_of(h, "NO DATA"@, 0);
    assert(crate::text::is_hex_digit(h[0]));
    assert(crate::text::is_hex_digit(h[h.len() - 1]));
    assert(crate::text::skip_white(h, 0) == 0);
    assert(crate::text::back_white(h, h.len() as int) == h.len());
    assert(trim(h) =~= h);
    assert(crate::j1979::dtc::dtc_start(d) == 1);
    reveal_with_fuel(crate::j1979::dtc::dtcs_from, 3);
    let ds = crate::j1979::dtc::dtcs_from(d, 1, status);
    assert(ds =~= seq![crate::j1979::dtc::dtc_view(a, b, status)]);
}


/// The same with the count byte that CAN adapters put after the service byte:
/// `43 01 A B` holds one code, read as above, e.g. `43 01 41 23` is `C0123`.
pub proof fn lemma_dtc_letters_counted(a: u8, b: u8, status: crate::j1979::dtc::DtcStatus)
    requires
        !(a == 0 && b == 0),
    ensures
        crate::j1979::dtc::dtcs_spec(hex_of_bytes(seq![0x43u8, 0x01u8, a, b]), status) matches Some(
            ds,
        ) && ds.len() == 1 && ds[0].code == seq![
            j2012_letter(a),
            ('0' as int + (a / 16) % 4) as char,
            crate::text::hex_char(a as int % 16),
        ] + hex2(b) && ds[0].status == status && ds[0].raw == hex2(a) + hex2(b),
{
    let d = seq![0x43u8, 0x01u8, a, b];
    let h = hex_of_bytes(d);
    lemma_hex_of_bytes(d);
    lemma_hex_round_trip(d);
    crate::text::lemma_keep_hex_of_hex(h);
    reveal_strlit("NO DATA");
    lemma_hex_free_of(h, "NO DATA"@, 0);
    assert(crate::text::is_hex_digit(h[0]));
    assert(crate::text::is_hex_digit(h[h.len() - 1]));
    assert(crate::text::skip_white(h, 0) == 0);
    assert(crate::text::back_white(h, h.len() as int) == h.len());
    assert(trim(h) =~= h);
    assert(crate::j1979::dtc::dtc_start(d) == 2);
    reveal_with_fuel(crate::j1979::dtc::dtcs_from, 3);
    let ds = crate::j1979::dtc::dtcs_from(d, 2, status);
    assert(ds =~= seq![crate::j1979::dtc::dtc_view(a, b, status)]);
}

} // verus!

verus! {

/// The bytes of a text's characters (ASCII).
pub open spec fn ascii_bytes(v: Seq<char>) -> Seq<u8> {
    v.map_values(|c: char| c as u8)
}

proof fn lemma_strip_no_colon(s: Seq<char>, i: int)
    requires
        0 <= i <= s.len(),
        forall|j: int| 0 <= j < s.len() ==> s[j] != ':',
    ensures
        crate::j1979::pid::strip_markers_from(s, i) == s.subrange(i, s.len() as int),
    decreases s.len() - i,
{
    if i < s.len() {
        let j = crate::j1979::pid::hex_run(s, i);
        assert(!crate::j1979::pid::marker_at(s, i));
        lemma_strip_no_colon(s, i + 1);
        assert(seq![s[i]] + s.subrange(i + 1, s.len() as int) =~= s.subrange(i, s.len() as int));
    } else {
        assert(s.subrange(i, s.len() as int) =~= Seq::<char>::empty());
    }
}

proof fn lemma_vin_chars_of_text(v: Seq<char>)
    requires
        forall|i: int|
            0 <= i < v.len() ==> crate::text::is_digit(#[trigger] v[i]) || ('A' <= v[i] && v[i]
                <= 'Z'),
    ensures
        crate::j1979::pid::vin_chars(ascii_bytes(v)) == v,
        crate::j1979::pid::keep_alnum(v) == v,
    decreases v.len(),
{
    if v.len() > 0 {
        let d = v.drop_last();
        assert forall|i: int|
            0 <= i < d.len() implies crate::text::is_digit(#[trigger] d[i]) || ('A' <= d[i] && d[i]
            <= 'Z') by {
            assert(d[i] == v[i]);
        }
        lemma_vin_chars_of_text(d);
        let b = ascii_bytes(v);
        assert(b.drop_last() =~= ascii_bytes(d));
        let c = v.last();
        assert(crate::text::is_digit(v[v.len() - 1]) || ('A' <= v[v.len() - 1] && v[v.len() - 1]
            <= 'Z'));
        assert(b.last() == c as u8);
        assert((c as u8) as int == c as int);
        assert(crate::j1979::pid::is_vin_byte(b.last()));
        assert((b.last() as char) == c);
        assert(d.push(c) =~= v);
    }
}

/// A Mode 09 PID 02 reply `49 02 01` followed by the ASCII bytes of a
/// 17-character VIN (digits and upper-case letters) reads back as that VIN.
pub proof fn lemma_vin_reply_reads_back(v: Seq<char>)
    requires
        v.len() == 17,
        forall|i: int|
            0 <= i < v.len() ==> crate::text::is_digit(#[trigger] v[i]) || ('A' <= v[i] && v[i]
                <= 'Z'),
    ensures
        crate::j1979::pid::vin_spec(hex_of_bytes(seq![0x49u8, 0x02, 0x01] + ascii_bytes(v))) == Some(
            v,
        ),
{
    let d = seq![0x49u8, 0x02, 0x01] + ascii_bytes(v);
    let s = hex_of_bytes(d);
    lemma_hex_of_bytes(d);
    lemma_hex_round_trip(d);
    crate::text::lemma_keep_hex_of_hex(s);
    assert forall|j: int| 0 <= j < s.len() implies s[j] != ':' by {
        assert(crate::text::is_hex_digit(s[j]));
    }
    lemma_strip_no_colon(s, 0);
    assert(s.subrange(0, s.len() as int) =~= s);
    assert(crate::text::upper(s) =~= s) by {
        assert forall|j: int| 0 <= j < s.len() implies crate::text::upper(s)[j] == s[j] by {
            assert(crate::text::is_hex_digit(s[j]));
            let k = j / 2;
            assert(j == 2 * k || j == 2 * k + 1);
            lemma_hex_char(d[k] as int / 16);
            lemma_hex_char(d[k] as int % 16);
        }
    }
    reveal_strlit("4902");
    assert(d[0] == 0x49u8 && d[1] == 0x02u8);
    assert(s[0] == '4' && s[1] == '9' && s[2] == '0' && s[3] == '2');
    assert(s.subrange(0, 4) =~= "4902"@);
    assert(crate::text::occurs_at(s, "4902"@, 0));
    assert(crate::text::first_occurrence(s, "4902"@) == Some(0int));
    assert(crate::j1979::pid::vin_hex(s) == s);
    assert(crate::j1979::pid::hex_pairs(s) == d);
    assert(crate::j1979::pid::first_pair_from(d, 0x49, 0x02, 0) == Some(0int));
    assert(d.subrange(2, d.len() as int).subrange(1, d.len() - 2) =~= ascii_bytes(v));
    assert(crate::j1979::pid::vin_payload(d) == ascii_bytes(v));
    lemma_vin_chars_of_text(v);
    assert(crate::text::upper(v) =~= v);
    assert(v.subrange(0, 17) =~= v);
}

} // verus!
