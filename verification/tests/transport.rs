use obd_io::bus::{AdapterCapabilities, BusTag, LinkKind, LinkPrefer};
use obd_io::transport::connect::{
    assemble_endpoints, baud_list, bt_first_attempts, bt_timeout_ms, connect_failure,
    decimal_string, parse_paired_devices, push_unique, rank, resolve_candidates, rfcomm_path,
    serial_attempts, serial_port_paths, ConnectAttempt, PairedDevice, bt_attempt_error, serial_attempt_error,
};
use obd_io::transport::link::classify_path as link_classify_path;
use obd_io::transport::serial::{
    bt_capabilities, bt_spp_address, clean_bt_response, clean_response, command_line,
    connect_wait_ms, connect_wait_step, ConnectWait,
    detect_ms_can_hint, elm_capabilities, identity_check, is_bus_noise, is_likely_obd_port,
    parse_bdaddr, prompt_read_step, protocol_locked, sanitize_identity, warm_up_step, ReadAction,
    ReadEvent, WarmUpAction,
};
use obd_io::transport::{
    check_bus_supported, classify_path, format_endpoint_list, normalize_bt_mac, sort_endpoints,
    AdapterEndpoint, ConnectOptions,
};
use obd_io::Error;

#[test]
fn sort_prefers_usb_in_auto() {
    let mut list = vec![
        AdapterEndpoint::from_path("/dev/rfcomm0"),
        AdapterEndpoint::from_path("/dev/ttyUSB0"),
    ];
    sort_endpoints(&mut list, LinkPrefer::Auto);
    assert_eq!(list[0].path, "/dev/ttyUSB0");
    assert_eq!(list[1].path, "/dev/rfcomm0");
}

#[test]
fn sort_prefers_bt_when_asked() {
    let mut list = vec![
        AdapterEndpoint::from_path("/dev/ttyUSB0"),
        AdapterEndpoint::from_path("/dev/rfcomm0"),
    ];
    sort_endpoints(&mut list, LinkPrefer::Bluetooth);
    assert_eq!(list[0].path, "/dev/rfcomm0");
}

#[test]
fn classify_in_from_path() {
    let e = AdapterEndpoint::from_path("/dev/rfcomm1");
    assert_eq!(e.kind, LinkKind::BluetoothSpp);
    assert_eq!(link_classify_path(&e.path), LinkKind::BluetoothSpp);
}

#[test]
fn clean_strips_searching() {
    let s = clean_response("SEARCHING...\r\n410C1AF8\r\n");
    assert_eq!(s, "410C1AF8");
}

#[test]
fn ms_can_hint_stn() {
    assert!(detect_ms_can_hint("STN1170 v5.6.6", ""));
    assert!(!detect_ms_can_hint("ELM327 v1.5", ""));
}

#[test]
fn classify_usb() {
    assert_eq!(classify_path("/dev/ttyUSB0"), LinkKind::UsbSerial);
    assert_eq!(classify_path("/dev/ttyACM1"), LinkKind::UsbSerial);
}

#[test]
fn classify_rfcomm() {
    assert_eq!(classify_path("/dev/rfcomm0"), LinkKind::BluetoothSpp);
    assert_eq!(classify_path("/dev/rfcomm3"), LinkKind::BluetoothSpp);
}

#[test]
fn normalize_mac() {
    assert_eq!(
        normalize_bt_mac("aa-bb-cc-dd-ee-ff").as_deref(),
        Some("AA:BB:CC:DD:EE:FF")
    );
    assert_eq!(
        normalize_bt_mac("AABBCCDDEEFF").as_deref(),
        Some("AA:BB:CC:DD:EE:FF")
    );
    assert!(normalize_bt_mac("bad").is_none());
}

#[test]
fn normalized_mac_normalizes_to_itself() {
    let once = normalize_bt_mac("01:23:45:67:89:ab").unwrap();
    assert_eq!(once, "01:23:45:67:89:AB");
    assert_eq!(normalize_bt_mac(&once).as_deref(), Some(once.as_str()));
}

#[test]
fn classify_other_paths() {
    assert_eq!(classify_path("/dev/ttyS0"), LinkKind::Other);
    assert_eq!(classify_path("/dev/cu.usbserial-1410"), LinkKind::UsbSerial);
    assert_eq!(classify_path("/dev/tty.Bluetooth-Incoming-Port"), LinkKind::BluetoothSpp);
    let e = AdapterEndpoint::from_path("/dev/ttyS0");
    assert_eq!(e.description, "Serial port");
}

#[test]
fn sort_is_stable_within_rank_and_ordered_by_path() {
    let mut list = vec![
        AdapterEndpoint::from_path("/dev/ttyUSB1"),
        AdapterEndpoint::from_path("/dev/ttyS0"),
        AdapterEndpoint::from_path("/dev/rfcomm0"),
        AdapterEndpoint::from_path("/dev/ttyACM0"),
    ];
    sort_endpoints(&mut list, LinkPrefer::Usb);
    let paths: Vec<&str> = list.iter().map(|e| e.path.as_str()).collect();
    assert_eq!(paths, vec!["/dev/ttyACM0", "/dev/ttyUSB1", "/dev/rfcomm0", "/dev/ttyS0"]);
}

#[test]
fn ranks_by_preference() {
    assert_eq!(rank(LinkPrefer::Auto, LinkKind::UsbSerial), 0);
    assert_eq!(rank(LinkPrefer::Auto, LinkKind::BluetoothSpp), 1);
    assert_eq!(rank(LinkPrefer::Bluetooth, LinkKind::UsbSerial), 2);
    assert_eq!(rank(LinkPrefer::Usb, LinkKind::Other), 3);
}

#[test]
fn clean_bt_drops_prompt_and_echo_noise() {
    let s = clean_bt_response("OK\r\n>\r\n41 0D 20\r\n");
    assert!(s.contains("41 0D 20"));
    assert!(is_bus_noise("BUS INIT: ...OK") || !is_bus_noise("410D20"));
    assert!(!is_bus_noise("410D20"));
}

#[test]
fn identity_on_one_line() {
    assert_eq!(sanitize_identity("ELM327 v1.5\r\n\r\n"), "ELM327 v1.5");
}

#[test]
fn likely_ports() {
    assert!(is_likely_obd_port("/dev/ttyUSB0"));
    assert!(is_likely_obd_port("/dev/rfcomm0"));
    assert!(!is_likely_obd_port("/dev/ttyS0"));
}

#[test]
fn capabilities_from_banners() {
    let caps = elm_capabilities("ELM327 v1.5 ", "?", " ISO 15765-4 ", LinkKind::UsbSerial);
    assert!(caps.elm_compatible);
    assert!(!caps.stn);
    assert!(!caps.ms_can);
    assert_eq!(caps.identity, "ELM327 v1.5");
    assert_eq!(caps.protocol, "ISO 15765-4");
    let stn = elm_capabilities("STN1170 v5.6.6", "OBDLink SX r4.2", "AUTO", LinkKind::UsbSerial);
    assert!(stn.stn && stn.ms_can);
    assert!(identity_check(&caps, "no ELM identity").is_ok());
    let silent = elm_capabilities("", "", "", LinkKind::Other);
    let e = identity_check(&silent, "no ELM identity").unwrap_err();
    assert!(matches!(e, Error::AdapterInit(ref m) if m == "no ELM identity"));
}

#[test]
fn protocol_lock_detection() {
    assert!(protocol_locked("41 00 BE 3E A8 13"));
    assert!(!protocol_locked("SEARCHING..."));
    assert!(!protocol_locked("41"));
}

#[test]
fn bdaddr_is_reversed() {
    assert_eq!(parse_bdaddr("00:1D:A5:68:98:8B").unwrap(), [0x8B, 0x98, 0x68, 0xA5, 0x1D, 0x00]);
    let e = parse_bdaddr("nope").unwrap_err();
    assert_eq!(e.message(), "adapter init failed: invalid Bluetooth MAC: nope");
}

#[test]
fn bt_spp_address_names() {
    let (mac, name) = bt_spp_address("001da568988b").unwrap();
    assert_eq!(mac, "00:1D:A5:68:98:8B");
    assert_eq!(name, "bt://00:1D:A5:68:98:8B");
    assert!(matches!(bt_spp_address("x"), Err(Error::AdapterInit(_))));
}

#[test]
fn rfcomm_paths_and_decimal() {
    assert_eq!(decimal_string(0), "0");
    assert_eq!(decimal_string(42), "42");
    assert_eq!(decimal_string(255), "255");
    assert_eq!(rfcomm_path(3), "/dev/rfcomm3");
}

#[test]
fn baud_defaults_and_fixed() {
    let mut opts = ConnectOptions::default();
    assert_eq!(baud_list(&opts, LinkKind::UsbSerial), vec![38400, 115200, 9600]);
    opts.baud = Some(115200);
    assert_eq!(baud_list(&opts, LinkKind::BluetoothSpp), vec![115200]);
}

#[test]
fn bluetooth_timeout_has_floor() {
    let mut opts = ConnectOptions::default();
    assert_eq!(bt_timeout_ms(&opts), 4000);
    opts.timeout_ms = 9000;
    assert_eq!(bt_timeout_ms(&opts), 9000);
}

#[test]
fn paired_devices_keep_obd_like_names() {
    let text = "Device 00:1D:A5:68:98:8B OBDII\nDevice 11:22:33:44:55:66 Logitech Mouse\nDevice zz Vgate\n";
    let devs = parse_paired_devices(text);
    assert_eq!(devs.len(), 1);
    assert_eq!(devs[0].mac, "00:1D:A5:68:98:8B");
    assert_eq!(devs[0].name, "OBDII");
}

#[test]
fn unique_paths_only() {
    let mut out = vec![AdapterEndpoint::from_path("/dev/ttyUSB0")];
    push_unique(&mut out, AdapterEndpoint::from_path("/dev/ttyUSB0"));
    push_unique(&mut out, AdapterEndpoint::from_path("/dev/rfcomm0"));
    assert_eq!(out.len(), 2);
    assert_eq!(serial_port_paths(&out), vec!["/dev/ttyUSB0".to_string(), "/dev/rfcomm0".to_string()]);
}

#[test]
fn explicit_path_skips_discovery() {
    let mut opts = ConnectOptions::default();
    opts.path = Some("/dev/rfcomm2".to_string());
    let r = resolve_candidates(&opts, vec![AdapterEndpoint::from_path("/dev/ttyUSB0")]);
    assert_eq!(r.len(), 1);
    assert_eq!(r[0].path, "/dev/rfcomm2");
    assert_eq!(r[0].kind, LinkKind::BluetoothSpp);
}

#[test]
fn connect_failure_messages() {
    assert!(matches!(connect_failure(&vec![]), Error::NoAdapter));
    let e = connect_failure(&vec!["a: x".to_string(), "b: y".to_string()]);
    assert_eq!(
        e.message(),
        "adapter init failed: no working adapter (tried USB and/or Bluetooth).\na: x\nb: y"
    );
}

#[test]
fn endpoint_listing() {
    let none = format_endpoint_list(&vec![]);
    assert!(none.starts_with("No adapters found.\n"));
    let one = format_endpoint_list(&vec![AdapterEndpoint::from_path("/dev/ttyUSB0")]);
    assert_eq!(one, "/dev/ttyUSB0        usb         USB serial OBD adapter");
}

#[test]
fn command_lines_are_trimmed_and_terminated() {
    assert_eq!(command_line(" 010C \n").unwrap(), "010C\r");
    let e = command_line("  ").unwrap_err();
    assert_eq!(e.message(), "protocol error: empty command");
}

#[test]
fn prompt_reading_collects_until_prompt() {
    let mut buf: Vec<u8> = Vec::new();
    assert_eq!(prompt_read_step(&mut buf, ReadEvent::Quiet), ReadAction::Continue);
    assert_eq!(prompt_read_step(&mut buf, ReadEvent::Byte(b'4')), ReadAction::Continue);
    assert_eq!(prompt_read_step(&mut buf, ReadEvent::Byte(0)), ReadAction::Continue);
    assert_eq!(prompt_read_step(&mut buf, ReadEvent::Nothing), ReadAction::Continue);
    assert_eq!(prompt_read_step(&mut buf, ReadEvent::Byte(b'1')), ReadAction::Continue);
    assert_eq!(buf, b"41".to_vec());
    assert_eq!(prompt_read_step(&mut buf, ReadEvent::Byte(b'>')), ReadAction::Finish);
    assert_eq!(buf, b"41".to_vec());
    let mut empty: Vec<u8> = Vec::new();
    assert_eq!(prompt_read_step(&mut empty, ReadEvent::Expired), ReadAction::TimedOut);
    assert_eq!(prompt_read_step(&mut buf, ReadEvent::Expired), ReadAction::Finish);
    assert_eq!(prompt_read_step(&mut buf, ReadEvent::Quiet), ReadAction::Finish);
}

#[test]
fn warm_up_retries_then_forces_can() {
    assert_eq!(warm_up_step(1, "41 00 BE 3E A8 13"), WarmUpAction::Locked);
    assert_eq!(warm_up_step(1, "SEARCHING..."), WarmUpAction::Retry);
    assert_eq!(warm_up_step(2, "UNABLE TO CONNECT"), WarmUpAction::SelectCanThenRetry);
    assert_eq!(warm_up_step(3, "NO DATA"), WarmUpAction::GiveUp);
}

#[test]
fn ms_can_refused_without_capability() {
    let caps = AdapterCapabilities::default();
    let e = check_bus_supported(&caps, BusTag::Ms, "no MS-CAN").unwrap_err();
    assert!(matches!(e, Error::Protocol(ref m) if m == "no MS-CAN"));
    assert!(check_bus_supported(&caps, BusTag::Hs, "no MS-CAN").is_ok());
}

#[test]
fn bluetooth_capabilities_fall_back_to_banner() {
    let caps = bt_capabilities("ELM327 v1.4b", "SEARCHING...", "?", "AUTO, ISO 15765-4");
    assert!(caps.elm_compatible);
    assert_eq!(caps.identity, "ELM327 v1.4b");
    assert_eq!(caps.link, LinkKind::BluetoothSpp);
    assert!(caps.stn);
    let silent = bt_capabilities("", "", "", "");
    assert!(!silent.elm_compatible);
}

#[test]
fn discovery_assembles_and_sorts() {
    let names = vec!["/dev/ttyS0".to_string(), "/dev/ttyUSB0".to_string(), "/dev/ttyUSB0".to_string()];
    let hints = vec![PairedDevice { mac: "00:1D:A5:68:98:8B".to_string(), name: "OBDII".to_string() }];
    let eps = assemble_endpoints(&names, &vec![0], &hints);
    let paths: Vec<&str> = eps.iter().map(|e| e.path.as_str()).collect();
    assert_eq!(paths, vec!["/dev/ttyUSB0", "/dev/rfcomm0", "bt://00:1D:A5:68:98:8B"]);
    assert_eq!(eps[1].description, "Bluetooth SPP RFCOMM 0");
    assert_eq!(eps[2].bt_mac.as_deref(), Some("00:1D:A5:68:98:8B"));
}

#[test]
fn connection_plan() {
    let hints = vec![PairedDevice { mac: "00:1D:A5:68:98:8B".to_string(), name: "OBDII".to_string() }];
    let opts = ConnectOptions::default();
    let none: Vec<AdapterEndpoint> = vec![];
    let usb_port = vec![AdapterEndpoint::from_path("/dev/ttyUSB0")];
    assert_eq!(bt_first_attempts(&opts, &hints, &none), vec!["00:1D:A5:68:98:8B".to_string()]);
    // Auto tries USB first: with a USB port found, paired devices are not tried first.
    assert!(bt_first_attempts(&opts, &hints, &usb_port).is_empty());
    let mut bt = ConnectOptions::default();
    bt.prefer = LinkPrefer::Bluetooth;
    assert_eq!(bt_first_attempts(&bt, &hints, &usb_port), vec!["00:1D:A5:68:98:8B".to_string()]);
    let mut usb = ConnectOptions::default();
    usb.prefer = LinkPrefer::Usb;
    assert!(bt_first_attempts(&usb, &hints, &none).is_empty());
    let mut with_path = ConnectOptions::default();
    with_path.path = Some("bt://001da568988b".to_string());
    assert_eq!(bt_first_attempts(&with_path, &hints, &none), vec!["00:1D:A5:68:98:8B".to_string()]);

    let cands = vec![AdapterEndpoint::from_path("/dev/rfcomm0")];
    let plan = serial_attempts(&opts, &cands);
    assert_eq!(plan.len(), 1);
    assert_eq!(plan[0].len(), 3);
    match &plan[0][0] {
        ConnectAttempt::Serial(s) => {
            assert_eq!(s.baud, 38400);
            assert_eq!(s.timeout_ms, 4000);
        }
        ConnectAttempt::BtSpp(_) => panic!("serial attempt expected"),
    }
}

#[test]
fn bluetooth_connect_wait() {
    assert_eq!(connect_wait_ms(2500), 8000);
    assert_eq!(connect_wait_ms(9000), 9000);
    assert_eq!(connect_wait_step(Some(0), false), ConnectWait::Connected);
    assert_eq!(connect_wait_step(Some(111), true), ConnectWait::Failed(111));
    assert_eq!(connect_wait_step(None, false), ConnectWait::Waiting);
    assert_eq!(connect_wait_step(None, true), ConnectWait::TimedOut);
}

#[test]
fn attempt_notes_name_the_target_and_the_error() {
    assert_eq!(
        bt_attempt_error("00:1D:A5:00:00:01", &Error::Timeout),
        "bt-spp 00:1D:A5:00:00:01: timeout while wait for adapter response"
    );
    assert_eq!(
        serial_attempt_error("/dev/ttyUSB0", 38400, &Error::Serial("busy".to_string())),
        "/dev/ttyUSB0 @ 38400: serial port error: busy"
    );
    assert_eq!(serial_attempt_error("COM3", 0, &Error::NoAdapter), "COM3 @ 0: no serial OBD adapter found");
}
