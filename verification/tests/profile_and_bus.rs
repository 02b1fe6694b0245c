use obd_io::bus::{AdapterCapabilities, BusTag, LinkKind, LinkPrefer};
use obd_io::capture::{default_capture_root, escape_csv, frame_pair, parse_signal_fields, signal_csv_row, CaptureSession};
use obd_io::dashboard::{trim_log, weighted_poll_order, Tab};
use obd_io::error::Error;
use obd_io::j1979::decode_pid;
use obd_io::profile::{select_profile, sort_profiles_by_id, ProfilePid};
use obd_io::transport::FrameDir;
use obd_io::{generic_profile, CAPTURE_FORMAT_VERSION};

#[test]
fn generic_has_rpm() {
    let p = generic_profile();
    assert!(p.resolved_pids().iter().any(|x| x.pid == 0x0C));
}

#[test]
fn profile_pid_overrides_and_extends() {
    let mut p = generic_profile();
    p.pids.push(ProfilePid {
        mode: 0x01,
        pid: 0x0C,
        name: "rpm_override".to_string(),
        unit: String::new(),
        description: String::new(),
        bus: None,
    });
    p.pids.push(ProfilePid {
        mode: 0x22,
        pid: 0x01,
        name: "ford_custom".to_string(),
        unit: "raw".to_string(),
        description: "Ford extended".to_string(),
        bus: Some("ms".to_string()),
    });
    let defs = p.resolved_pids();
    let rpm = defs.iter().find(|d| d.mode == 0x01 && d.pid == 0x0C).unwrap();
    assert_eq!(rpm.name, "rpm_override");
    assert_eq!(rpm.unit, "rpm");
    let last = defs.last().unwrap();
    assert_eq!(last.mode, 0x22);
    assert_eq!(last.name, "ford_custom");
}

fn profile_pid(mode: u8, pid: u8, name: &str, unit: &str, description: &str) -> ProfilePid {
    ProfilePid {
        mode,
        pid,
        name: name.to_string(),
        unit: unit.to_string(),
        description: description.to_string(),
        bus: None,
    }
}

#[test]
fn later_profile_entries_win_and_new_ones_append_once() {
    let mut p = generic_profile();
    p.pids.clear();
    p.pids.push(profile_pid(0x22, 0x40, "first", "u", "d"));
    p.pids.push(profile_pid(0x01, 0x0C, "rpm_a", "RPM", ""));
    p.pids.push(profile_pid(0x22, 0x41, "other", "", ""));
    p.pids.push(profile_pid(0x01, 0x0C, "rpm_b", "", ""));
    p.pids.push(profile_pid(0x22, 0x40, "second", "", "d2"));
    let defs = p.resolved_pids();
    assert_eq!(defs.len(), 18);
    let rpm: Vec<_> = defs.iter().filter(|d| d.mode == 0x01 && d.pid == 0x0C).collect();
    assert_eq!(rpm.len(), 1);
    assert_eq!(rpm[0].name, "rpm_b");
    assert_eq!(rpm[0].unit, "RPM");
    assert_eq!(rpm[0].description, "Engine RPM");
    assert_eq!((defs[16].mode, defs[16].pid), (0x22, 0x40));
    assert_eq!(defs[16].name, "second");
    assert_eq!(defs[16].unit, "u");
    assert_eq!(defs[16].description, "d2");
    assert_eq!((defs[17].mode, defs[17].pid), (0x22, 0x41));
    assert_eq!(defs[17].unit, "");
}

#[test]
fn select_and_sort_profiles() {
    let mut a = generic_profile();
    a.id = "ford_f150".to_string();
    let mut b = generic_profile();
    b.id = "chevy".to_string();
    let mut list = vec![a.clone(), b.clone()];
    sort_profiles_by_id(&mut list);
    assert_eq!(list[0].id, "chevy");
    assert_eq!(list[1].id, "ford_f150");
    assert_eq!(select_profile(list.clone(), "ford_f150").id, "ford_f150");
    assert_eq!(select_profile(list, "missing").id, "generic_j1979");
}

#[test]
fn bus_tags_parse_and_print() {
    for b in [BusTag::Hs, BusTag::Ms, BusTag::Unknown] {
        assert_eq!(BusTag::parse(b.as_str()).unwrap(), b);
    }
    assert_eq!(BusTag::parse("HS-CAN").unwrap(), BusTag::Hs);
    assert_eq!(BusTag::parse("").unwrap(), BusTag::Unknown);
    assert_eq!(BusTag::parse("lin").unwrap_err(), "unknown bus tag: lin");
    assert_eq!("mscan".parse::<BusTag>().unwrap(), BusTag::Ms);
}

#[test]
fn bus_tag_cycles_with_period_three() {
    let b = BusTag::Hs;
    assert_eq!(b.cycled(), BusTag::Ms);
    assert_eq!(b.cycled().cycled(), BusTag::Unknown);
    assert_eq!(b.cycled().cycled().cycled(), BusTag::Hs);
}

#[test]
fn link_kinds_and_preferences_parse() {
    for k in [LinkKind::UsbSerial, LinkKind::BluetoothSpp, LinkKind::Other] {
        assert_eq!(LinkKind::parse(k.as_str()).unwrap(), k);
    }
    assert_eq!(LinkKind::parse("RFCOMM").unwrap(), LinkKind::BluetoothSpp);
    assert_eq!(LinkKind::parse("x").unwrap_err(), "unknown link kind: x");
    assert_eq!(LinkPrefer::parse("wired").unwrap(), LinkPrefer::Usb);
    assert_eq!(LinkPrefer::parse("bt").unwrap(), LinkPrefer::Bluetooth);
    assert_eq!(
        LinkPrefer::parse("fast").unwrap_err(),
        "unknown prefer: fast (auto|usb|bluetooth)"
    );
    for p in [LinkPrefer::Auto, LinkPrefer::Usb, LinkPrefer::Bluetooth] {
        assert_eq!(LinkPrefer::parse(p.as_str()).unwrap(), p);
    }
    assert_eq!(LinkKind::UsbSerial.default_bauds(), vec![38400, 115200, 9600]);
}

#[test]
fn capabilities_summary() {
    let caps = AdapterCapabilities {
        elm_compatible: true,
        stn: true,
        ms_can: false,
        link: LinkKind::BluetoothSpp,
        identity: "OBDLink MX+".to_string(),
        protocol: String::new(),
    };
    assert_eq!(caps.summary(), "STN · bluetooth · MS-CAN: no · OBDLink MX+");
    let d = AdapterCapabilities::default();
    assert_eq!(d.summary(), "unknown · other · MS-CAN: no · ");
}

#[test]
fn tabs_cycle() {
    assert_eq!(Tab::Live.next(), Tab::Dtc);
    assert_eq!(Tab::Live.prev(), Tab::Help);
    assert_eq!(Tab::Help.next().prev(), Tab::Help);
    assert_eq!(Tab::Log.next().next().next().next(), Tab::Log);
}

#[test]
fn log_is_trimmed_to_last_four_hundred() {
    let mut log: Vec<String> = (0..501).map(|i| i.to_string()).collect();
    trim_log(&mut log);
    assert_eq!(log.len(), 400);
    assert_eq!(log[0], "101");
    let mut short: Vec<String> = (0..500).map(|i| i.to_string()).collect();
    trim_log(&mut short);
    assert_eq!(short.len(), 500);
}

#[test]
fn poll_order_weights_fast_pids() {
    assert_eq!(weighted_poll_order(&vec![0x0C, 0x05]), vec![0x0C, 0x0C, 0x0C, 0x05]);
    assert_eq!(weighted_poll_order(&vec![]), vec![0x0C, 0x0D, 0x04, 0x11, 0x05, 0x0C]);
}

#[test]
fn csv_escaping() {
    assert_eq!(escape_csv("rpm"), "rpm");
    assert_eq!(escape_csv("a,b"), "\"a,b\"");
    assert_eq!(escape_csv("say \"hi\""), "\"say \"\"hi\"\"\"");
}

#[test]
fn capture_push_and_pairs() {
    let mut session = CaptureSession::new("obd-io-test");
    assert_eq!(session.meta.format_version, CAPTURE_FORMAT_VERSION);
    let (tx, rx) = frame_pair(BusTag::Hs, "010C", "410C1AF8");
    session.push_frame(tx);
    session.push_frame(rx);
    session.push_live(&decode_pid("410C1AF8", Some(0x0C)).unwrap(), BusTag::Hs);
    assert_eq!(session.frames.len(), 2);
    assert_eq!(session.frames[0].dir, FrameDir::Tx);
    assert_eq!(session.frames[1].data, "410C1AF8");
    assert_eq!(session.signals.len(), 1);
    let v = session.signals[0].value;
    assert!((v.num as f64 / v.den as f64 - 1726.0).abs() < 0.1);
    assert!(session.signals[0].ts.secs > 0);
    assert_eq!(default_capture_root(), "captures");
}

#[test]
fn error_messages() {
    assert_eq!(Error::NoAdapter.message(), "no serial OBD adapter found");
    assert_eq!(Error::Timeout.message(), "timeout while wait for adapter response");
    assert_eq!(
        Error::Profile { path: "p.yaml".to_string(), message: "bad".to_string() }.message(),
        "profile error at p.yaml: bad"
    );
    assert_eq!(Error::WriteGated("x".to_string()).message(), "operation is write-gated: x");
}

#[test]
fn signal_rows_split_into_fields() {
    let f = parse_signal_fields("2024-05-01T12:00:00+00:00,engine_rpm,1726,rpm,1,12,hs").unwrap();
    assert_eq!(f.ts.secs, 1714564800);
    assert_eq!(f.ts.nanos, 0);
    assert_eq!(f.name, "engine_rpm");
    assert_eq!(f.value_text, "1726");
    assert_eq!(f.unit, "rpm");
    assert_eq!(f.mode, 1);
    assert_eq!(f.pid, 12);
    assert_eq!(f.bus, BusTag::Hs);
    let other = parse_signal_fields("2024-05-01T14:00:00+02:00,x,1,u,+2,255,can3").unwrap();
    assert_eq!(other.ts.secs, 1714564800);
    assert_eq!(other.mode, 2);
    assert_eq!(other.pid, 255);
    assert_eq!(other.bus, BusTag::Unknown);
    assert!(parse_signal_fields("2024-05-01T12:00:00Z,x,1,u,1,256,hs").is_none());
    assert!(parse_signal_fields("2024-05-01T12:00:00Z,x,1,u,1,-2,hs").is_none());
    assert!(parse_signal_fields("yesterday,x,1,u,1,2,hs").is_none());
    assert!(parse_signal_fields("2024-05-01T12:00:00Z,x,1,u,1").is_none());
}

#[test]
fn signal_rows_written_read_back() {
    let row = signal_csv_row("2024-05-01T12:00:00+00:00", "engine_rpm", "1726", "rpm", 1, 12, BusTag::Hs);
    assert_eq!(row, "2024-05-01T12:00:00+00:00,engine_rpm,1726,rpm,1,12,hs");
    let f = parse_signal_fields(&row).unwrap();
    assert_eq!(f.ts.secs, 1714564800);
    assert_eq!(f.name, "engine_rpm");
    assert_eq!(f.value_text, "1726");
    assert_eq!(f.unit, "rpm");
    assert_eq!((f.mode, f.pid, f.bus), (1, 12, BusTag::Hs));
    let wide = signal_csv_row("t", "a,b", "0.5", "say \"x\"", 255, 0, BusTag::Unknown);
    assert_eq!(wide, "t,\"a,b\",0.5,\"say \"\"x\"\"\",255,0,unknown");
    let ms = signal_csv_row("2024-05-01T12:00:00Z", "v", "7", "", 34, 100, BusTag::Ms);
    let g = parse_signal_fields(&ms).unwrap();
    assert_eq!((g.mode, g.pid, g.bus), (34, 100, BusTag::Ms));
    assert_eq!(g.unit, "");
}
