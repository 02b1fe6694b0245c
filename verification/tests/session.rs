use obd_io::bus::BusTag;
use obd_io::j1979::DtcStatus;
use obd_io::modules::{apply_stn_bus, ford_module_probes, probe_modules, stn_select_hs, stn_select_ms, ModuleProbe};
use obd_io::sample::sample_session;
use obd_io::transport::FrameDir;
use obd_io::{generic_profile, CaptureSession, Error, Frame, ReplayTransport, Transport, VehicleSession};

fn sample_vehicle() -> VehicleSession<ReplayTransport> {
    let transport = ReplayTransport::from_session(&sample_session(), "obd-sim-test");
    VehicleSession::new(transport, generic_profile(), "obd-sim-test")
}

#[test]
fn sample_replay_reads_rpm() {
    let mut vs = sample_vehicle();
    vs.init().unwrap();
    let _ = vs.raw("ATI");
    let _ = vs.raw("ATDP");
    let vin = vs.read_vin().unwrap();
    assert!(vin.starts_with('1') || vin.len() == 17);
    let _ = vs.probe_supported_pids();
    let rpm = vs.read_pid(0x0C).unwrap();
    assert_eq!(rpm.name, "engine_rpm");
    assert!(rpm.value.num > 0 && rpm.value.den > 0);
}

#[test]
fn sample_session_contents() {
    let s = sample_session();
    assert_eq!(s.meta.software, "obd-sim");
    assert_eq!(s.meta.vin.as_deref(), Some("1FTFW1E50MFA00000"));
    assert_eq!(s.meta.capabilities.identity, "ELM327 SAMPLE");
    assert_eq!(s.frames.len(), 42);
    assert_eq!(s.frames[0].dir, FrameDir::Tx);
    assert_eq!(s.frames[0].data, "ATI");
    assert_eq!(s.frames[1].dir, FrameDir::Rx);
    assert_eq!(s.frames[1].data, "ELM327 SAMPLE");
    assert_eq!(s.frames[41].data, "410460");
    assert_eq!(s.signals.len(), 1);
    assert_eq!(s.signals[0].pid, 0x0C);
    assert!(s.vehicle_yaml.as_deref().unwrap().starts_with("id: generic_j1979\n"));
}

#[test]
fn replay_answers_in_capture_order_then_repeats_last() {
    let mut t = ReplayTransport::from_session(&sample_session(), "sample");
    assert_eq!(t.transact("010C").unwrap(), "410C1AF8");
    assert_eq!(t.transact("01 0c").unwrap(), "410C1B00");
    assert_eq!(t.transact("010C").unwrap(), "410C1C00");
    assert_eq!(t.transact("010C").unwrap(), "410C1C00");
    assert_eq!(t.transact("010C").unwrap(), "410C1C00");
}

#[test]
fn replay_unknown_command_uses_fallback_order() {
    let mut cap = CaptureSession::new("t");
    cap.push_frame(Frame::tx(BusTag::Hs, "ATZ"));
    cap.push_frame(Frame::rx(BusTag::Hs, "ELM327 v1.5"));
    let mut t = ReplayTransport::from_session(&cap, "t");
    assert_eq!(t.transact("0100").unwrap(), "ELM327 v1.5");
    assert_eq!(t.transact("ATRV").unwrap(), "OK");
    assert!(matches!(t.transact("0100"), Err(Error::Protocol(_))));
    let empty = CaptureSession::new("t");
    let mut t2 = ReplayTransport::from_session(&empty, "t2");
    let e = t2.transact("0100").unwrap_err();
    assert_eq!(e.message(), "protocol error: replay has no response for 0100");
}

#[test]
fn replay_init_names_a_silent_adapter() {
    let empty = CaptureSession::new("t");
    let mut t = ReplayTransport::from_session(&empty, "t");
    t.init().unwrap();
    assert_eq!(t.capabilities().identity, "replay");
    assert!(t.capabilities().elm_compatible);
    t.select_bus(BusTag::Ms).unwrap();
    assert_eq!(t.active_bus(), BusTag::Ms);
}

#[test]
fn clear_dtcs_is_write_gated() {
    let mut vs = sample_vehicle();
    let e = vs.clear_dtcs().unwrap_err();
    assert!(matches!(e, Error::WriteGated(_)));
    assert!(e.message().starts_with("operation is write-gated: "));
}

#[test]
fn read_dtcs_from_sample() {
    let mut vs = sample_vehicle();
    let dtcs = vs.read_dtcs().unwrap();
    assert_eq!(dtcs.len(), 1);
    assert_eq!(dtcs[0].code, "P0301");
    assert_eq!(dtcs[0].status, DtcStatus::Stored);
}

#[test]
fn capture_records_frames_and_vin() {
    let mut vs = sample_vehicle();
    vs.start_capture(Some("id: x\n".to_string()));
    vs.read_vin().unwrap();
    vs.read_pid(0x0D).unwrap();
    let cap = vs.stop_capture().unwrap();
    assert_eq!(cap.meta.software, "obd-sim-test");
    assert_eq!(cap.meta.profile_id.as_deref(), Some("generic_j1979"));
    assert_eq!(cap.meta.vin.as_deref(), Some("1FTFW1E50MFA00000"));
    assert_eq!(cap.frames.len(), 4);
    assert_eq!(cap.frames[0].data, "0902");
    assert_eq!(cap.frames[2].data, "010D");
    assert_eq!(cap.signals.len(), 1);
    assert_eq!(cap.vehicle_yaml.as_deref(), Some("id: x\n"));
    assert!(vs.stop_capture().is_none());
}

#[test]
fn dashboard_poll_reads_supported_pids() {
    let mut vs = sample_vehicle();
    vs.probe_supported_pids().unwrap();
    let values = vs.poll_dashboard().unwrap();
    assert!(values.iter().any(|v| v.pid == 0x0C));
    assert!(values.iter().all(|v| v.mode == 0x01));
}

#[test]
fn stn_bus_commands() {
    assert_eq!(stn_select_hs(), vec!["ATSP6"]);
    assert_eq!(stn_select_ms(), vec!["STP53", "ATSPB C350"]);
}

#[test]
fn stn_bus_selection_on_replay() {
    let mut vs = sample_vehicle();
    apply_stn_bus(&mut vs, BusTag::Ms).unwrap();
    assert_eq!(vs.active_bus(), BusTag::Ms);
    apply_stn_bus(&mut vs, BusTag::Unknown).unwrap();
    assert_eq!(vs.active_bus(), BusTag::Ms);
}

#[test]
fn module_probes_are_listed() {
    let probes = ford_module_probes();
    assert!(!probes.is_empty());
    let mut vs = sample_vehicle();
    let results = probe_modules(&mut vs, &probes).unwrap();
    assert!(results[0].ok);
    assert_eq!(results[0].id, "pcm");
    assert_eq!(results.len(), probes.len());
}

struct Silent {
    caps: obd_io::AdapterCapabilities,
}

impl Transport for Silent {
    fn name(&self) -> &str {
        "silent"
    }

    fn capabilities(&self) -> &obd_io::AdapterCapabilities {
        &self.caps
    }

    fn active_bus(&self) -> BusTag {
        BusTag::Hs
    }

    fn init(&mut self) -> Result<(), Error> {
        Ok(())
    }

    fn transact(&mut self, _command: &str) -> Result<String, Error> {
        Err(Error::Timeout)
    }
}

#[test]
fn default_bus_selection_refuses_ms_without_capability() {
    let mut t = Silent { caps: obd_io::AdapterCapabilities::default() };
    assert!(t.select_bus(BusTag::Hs).is_ok());
    assert!(t.select_bus(BusTag::Unknown).is_ok());
    let e = t.select_bus(BusTag::Ms).unwrap_err();
    assert_eq!(e.message(), "protocol error: adapter does not support MS-CAN");
    t.caps.ms_can = true;
    assert!(t.select_bus(BusTag::Ms).is_ok());
}

#[test]
fn read_dtcs_failures() {
    let mut cap = CaptureSession::new("t");
    cap.push_frame(Frame::tx(BusTag::Hs, "03"));
    cap.push_frame(Frame::rx(BusTag::Hs, "43 03 0"));
    let mut vs = VehicleSession::new(ReplayTransport::from_session(&cap, "t"), generic_profile(), "t");
    let e = vs.read_dtcs().unwrap_err();
    assert_eq!(e.message(), "decode error: odd hex length in response: \"43030\"");
    let mut silent = VehicleSession::new(
        Silent { caps: obd_io::AdapterCapabilities::default() },
        generic_profile(),
        "t",
    );
    silent.start_capture(None);
    assert!(matches!(silent.read_dtcs(), Err(Error::Timeout)));
    let recorded = silent.stop_capture().unwrap();
    assert_eq!(recorded.frames.len(), 1);
    assert_eq!(recorded.frames[0].data, "03");
}

#[test]
fn replay_polls_interleave_and_count_down() {
    let s = sample_session();
    let tx = s.frames.iter().filter(|f| f.dir == FrameDir::Tx).count();
    let mut t = ReplayTransport::from_session(&s, "sample");
    assert_eq!(t.remaining_responses(), tx);
    assert_eq!(t.transact("010C").unwrap(), "410C1AF8");
    assert_eq!(t.remaining_responses(), tx - 1);
    assert_eq!(t.transact("010D").unwrap(), "410D00");
    assert_eq!(t.transact("010c").unwrap(), "410C1B00");
    assert_eq!(t.transact("ATI").unwrap(), "ELM327 SAMPLE");
    assert_eq!(t.transact("010C").unwrap(), "410C1C00");
    let left = t.remaining_responses();
    assert_eq!(t.transact("010C").unwrap(), "410C1C00");
    assert_eq!(t.remaining_responses(), left);
}

#[test]
fn probes_and_stn_selection_report_the_transport_errors() {
    let mut vs = VehicleSession::new(
        Silent { caps: obd_io::AdapterCapabilities::default() },
        generic_profile(),
        "t",
    );
    let probes = vec![
        ModuleProbe {
            id: "bcm".to_string(),
            name: "Body".to_string(),
            bus: BusTag::Ms,
            setup: Vec::new(),
            probe_cmd: "22F190".to_string(),
            notes: String::new(),
        },
        ModuleProbe {
            id: "pcm".to_string(),
            name: "Powertrain".to_string(),
            bus: BusTag::Hs,
            setup: vec!["ATSH7E0".to_string()],
            probe_cmd: "0902".to_string(),
            notes: String::new(),
        },
    ];
    let results = probe_modules(&mut vs, &probes).unwrap();
    assert_eq!(results.len(), 2);
    assert_eq!(results[0].id, "bcm");
    assert_eq!(results[0].bus, "ms");
    assert!(!results[0].ok);
    assert_eq!(results[0].error.as_deref(), Some("protocol error: adapter does not support MS-CAN"));
    assert_eq!(results[1].id, "pcm");
    assert!(!results[1].ok);
    assert_eq!(results[1].response, "");
    assert_eq!(results[1].error.as_deref(), Some("timeout while wait for adapter response"));
    let e = apply_stn_bus(&mut vs, BusTag::Ms).unwrap_err();
    assert_eq!(e.message(), "timeout while wait for adapter response");
}

#[test]
fn vin_reply_that_does_not_parse_gives_the_decode_error() {
    let mut cap = CaptureSession::new("t");
    cap.push_frame(Frame::tx(BusTag::Hs, "0902"));
    cap.push_frame(Frame::rx(BusTag::Hs, "49 02"));
    let mut vs = VehicleSession::new(ReplayTransport::from_session(&cap, "t"), generic_profile(), "t");
    let e = vs.read_vin().unwrap_err();
    assert_eq!(e.message(), "decode error: VIN response too short");
    assert!(vs.vin.is_none());
}
