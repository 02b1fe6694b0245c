use obd_io::j1979::decode::decode_mode_pid;
use obd_io::j1979::dtc::{clear_dtc_command, dtc_command, parse_clear_ack, parse_dtcs, DtcStatus};
use obd_io::j1979::pid::{
    decode_pid, mode01_command, mode09_command, parse_hex_bytes, parse_vin, pid_supported_bitmap,
    priority_pids, standard_pid_defs, Fraction,
};
use obd_io::j1979::{known_pid_catalog, mode02_command, monitor_status_command};
use obd_io::Error;

fn approx(f: Fraction) -> f64 {
    f.num as f64 / f.den as f64
}

#[test]
fn parse_p0301() {
    // P0301 = 03 01
    let dtcs = parse_dtcs("430301", DtcStatus::Stored).unwrap();
    assert_eq!(dtcs.len(), 1);
    assert_eq!(dtcs[0].code, "P0301");
}

#[test]
fn empty_no_data() {
    let dtcs = parse_dtcs("NO DATA", DtcStatus::Stored).unwrap();
    assert!(dtcs.is_empty());
}

#[test]
fn rpm() {
    let v = decode_mode_pid("410C1AF8", 0x01, Some(0x0C)).unwrap();
    assert!((approx(v.value) - 1726.0).abs() < 0.1);
}

#[test]
fn voltage() {
    // 0x36B0 = 14000 -> 14.0 V
    let v = decode_mode_pid("414236B0", 0x01, Some(0x42)).unwrap();
    assert!((approx(v.value) - 14.0).abs() < 0.1);
}

#[test]
fn rpm_decode() {
    // 0x1A F8 -> 1726 rpm
    let v = decode_pid("410C1AF8", Some(0x0C)).unwrap();
    assert_eq!(v.name, "engine_rpm");
    assert!((approx(v.value) - 1726.0).abs() < 0.1);
}

#[test]
fn speed_decode() {
    let v = decode_pid("410D40", Some(0x0D)).unwrap();
    assert!((approx(v.value) - 64.0).abs() < 0.01);
}

#[test]
fn coolant_decode() {
    let v = decode_pid("41056A", Some(0x05)).unwrap();
    assert!((approx(v.value) - 66.0).abs() < 0.01); // 0x6A - 40 = 66
}

#[test]
fn vin_from_hex() {
    let vin = "1FTFW1E50MFA00000";
    let mut hex = String::from("490201");
    for b in vin.bytes() {
        hex.push_str(&format!("{b:02X}"));
    }
    let parsed = parse_vin(&hex).unwrap();
    assert_eq!(parsed, vin);
}

#[test]
fn vin_from_elm_multiline() {
    let resp = "0: 49 02 01 31 46 54\n1: 45 57 31 45 50 39 4B\n2: 46 43 37 33 34 39 39";
    let parsed = parse_vin(resp).unwrap();
    assert_eq!(parsed, "1FTEW1EP9KFC73499");
}

#[test]
fn vin_from_elm_jammed_line() {
    let resp = "0140:4902013146541:4557314550394B2:46433733343939";
    let parsed = parse_vin(resp).unwrap();
    assert_eq!(parsed, "1FTEW1EP9KFC73499");
}

#[test]
fn vin_too_short_is_decode_error() {
    let e = parse_vin("490201314654").unwrap_err();
    assert!(matches!(e, Error::Decode(_)));
}

#[test]
fn rpm_exact_fraction() {
    let v = decode_pid("410C1AF8", Some(0x0C)).unwrap();
    assert_eq!(v.value.num * 4, 6904 * v.value.den as i64);
    assert_eq!(v.unit, "rpm");
    assert_eq!(v.mode, 0x01);
    assert_eq!(v.pid, 0x0C);
}

#[test]
fn coolant_negative_temperature() {
    let v = decode_pid("410500", Some(0x05)).unwrap();
    assert_eq!(v.value.num, -40 * v.value.den as i64);
}

#[test]
fn decode_rejects_wrong_pid() {
    let e = decode_pid("410D40", Some(0x0C)).unwrap_err();
    assert!(matches!(e, Error::Decode(_)));
}

#[test]
fn decode_rejects_no_data() {
    assert!(matches!(decode_pid("NO DATA", Some(0x0C)), Err(Error::Decode(_))));
}

#[test]
fn decode_skips_searching_line() {
    let v = decode_pid("SEARCHING...\n41 0D 40", Some(0x0D)).unwrap();
    assert!((approx(v.value) - 64.0).abs() < 0.01);
}

#[test]
fn mode_commands_are_upper_hex() {
    assert_eq!(mode01_command(0x0C), "010C");
    assert_eq!(mode01_command(0xA6), "01A6");
    assert_eq!(mode09_command(0x02), "0902");
    assert_eq!(mode02_command(0x0C), "020C00");
    assert_eq!(monitor_status_command(), "0101");
    assert_eq!(dtc_command(0x03), "03");
    assert_eq!(dtc_command(0x0A), "0A");
    assert_eq!(clear_dtc_command(), "04");
}

#[test]
fn hex_bytes_ignore_separators() {
    assert_eq!(parse_hex_bytes("41 0C 1A F8").unwrap(), vec![0x41, 0x0C, 0x1A, 0xF8]);
    assert!(parse_hex_bytes("").unwrap().is_empty());
}

#[test]
fn hex_bytes_odd_length_is_decode_error() {
    let e = parse_hex_bytes("410").unwrap_err();
    assert!(matches!(e, Error::Decode(_)));
    assert_eq!(e.message(), "decode error: odd hex length in response: \"410\"");
}

#[test]
fn supported_bitmap_lists_pids() {
    let pids = pid_supported_bitmap("4100BE3EA813", 0x00).unwrap();
    assert_eq!(pids, vec![1, 3, 4, 5, 6, 7, 11, 12, 13, 14, 15, 17, 19, 21, 28, 31, 32]);
    let high = pid_supported_bitmap("41 20 80 00 00 01", 0x20).unwrap();
    assert_eq!(high, vec![0x21, 0x40]);
}

#[test]
fn supported_bitmap_too_short() {
    let e = pid_supported_bitmap("4100BE", 0x00).unwrap_err();
    assert!(matches!(e, Error::Decode(_)));
}

#[test]
fn dtc_pending_and_codes_by_system() {
    let dtcs = parse_dtcs("47 02 01 33 C1 00", DtcStatus::Pending).unwrap();
    assert_eq!(dtcs.len(), 2);
    assert_eq!(dtcs[0].code, "P0133");
    assert_eq!(dtcs[0].raw, "0133");
    assert_eq!(dtcs[0].status, DtcStatus::Pending);
    assert_eq!(dtcs[1].code, "U0100");
}

#[test]
fn dtc_zero_pairs_are_skipped() {
    let dtcs = parse_dtcs("430000", DtcStatus::Stored).unwrap();
    assert!(dtcs.is_empty());
}

#[test]
fn clear_ack_errors() {
    assert!(parse_clear_ack("44").is_ok());
    let e = parse_clear_ack("unable to connect").unwrap_err();
    assert!(matches!(e, Error::Protocol(_)));
    assert_eq!(e.message(), "protocol error: clear DTC failed: unable to connect");
}

#[test]
fn catalog_and_tables() {
    let cat = known_pid_catalog();
    assert!(cat.iter().any(|(p, n, u)| *p == 0x0C && *n == "engine_rpm" && *u == "rpm"));
    let defs = standard_pid_defs();
    assert!(defs.iter().any(|d| d.pid == 0x0D && d.name == "vehicle_speed"));
    assert_eq!(priority_pids()[0], 0x0C);
}

#[test]
fn decode_error_messages() {
    assert_eq!(
        decode_pid("NO DATA", Some(0x0C)).unwrap_err().message(),
        "decode error: empty or error response: \"NO DATA\""
    );
    assert_eq!(
        decode_pid("410D40", Some(0x0C)).unwrap_err().message(),
        "decode error: PID mismatch: expected 0C, got 0D"
    );
    assert_eq!(
        decode_pid("41 0C", Some(0x0C)).unwrap_err().message(),
        "decode error: response too short: 41 0C"
    );
    assert_eq!(
        decode_pid("410C1AF", Some(0x0C)).unwrap_err().message(),
        "decode error: odd hex length in response: \"410C1AF\""
    );
}

#[test]
fn vin_and_bitmap_error_messages() {
    assert_eq!(parse_vin("49 02").unwrap_err().message(), "decode error: VIN response too short");
    assert_eq!(
        parse_vin("490201 3146").unwrap_err().message(),
        "decode error: could not parse VIN from: \"490201 3146\""
    );
    assert_eq!(
        pid_supported_bitmap("4100BE", 0).unwrap_err().message(),
        "decode error: support bitmap too short"
    );
    assert_eq!(
        pid_supported_bitmap("\n 4100B \n", 0).unwrap_err().message(),
        "decode error: odd hex length in response: \"4100B\""
    );
    assert_eq!(
        parse_dtcs("43 03 0", DtcStatus::Stored).unwrap_err().message(),
        "decode error: odd hex length in response: \"43030\""
    );
}

#[test]
fn unknown_pid_gives_raw_value() {
    let v = decode_pid("41FE0102", Some(0xFE)).unwrap();
    assert_eq!(v.name, "pid_01_FE");
    assert_eq!(v.unit, "raw");
    assert_eq!(v.raw_hex, "0102");
    assert_eq!(v.value.num, 0);
}

#[test]
fn freeze_frame_reply_skips_frame_number() {
    let v = decode_mode_pid("420C001AF8", 0x02, Some(0x0C)).unwrap();
    assert_eq!(v.mode, 0x02);
    assert_eq!(v.pid, 0x0C);
    assert_eq!(v.name, "engine_rpm");
    assert!((approx(v.value) - 1726.0).abs() < 0.1);
}

#[test]
fn hex_written_bytes_parse_back() {
    assert_eq!(parse_hex_bytes("41 0c\r\n1A f8").unwrap(), vec![0x41, 0x0C, 0x1A, 0xF8]);
    for p in 0..=255u8 {
        let cmd = mode01_command(p);
        assert_eq!(cmd.len(), 4);
        assert_eq!(parse_hex_bytes(&cmd).unwrap(), vec![0x01, p]);
    }
}

#[test]
fn every_catalog_pid_decodes_under_its_name() {
    let cat = known_pid_catalog();
    for w in cat.windows(2) {
        assert!(w[0].0 < w[1].0);
    }
    for (p, name, unit) in cat {
        let v = decode_mode_pid(&format!("41{p:02X}1234"), 0x01, Some(p)).unwrap();
        assert_eq!(v.pid, p);
        assert_eq!(v.name, name);
        assert_eq!(v.unit, unit);
    }
}

#[test]
fn every_table_pid_decodes_under_its_name() {
    let defs = standard_pid_defs();
    assert_eq!(defs.len(), 16);
    for (i, d) in defs.iter().enumerate() {
        assert_eq!(d.mode, 0x01);
        for e in &defs[i + 1..] {
            assert_ne!(d.pid, e.pid);
        }
        let v = decode_mode_pid(&format!("41{:02X}1234", d.pid), 0x01, Some(d.pid)).unwrap();
        assert_eq!(v.name, d.name);
        assert_eq!(v.unit, d.unit);
    }
}
