//! A synthetic capture (Ford-shaped VIN, live PIDs, one DTC) for offline work.
use crate::bus::{AdapterCapabilities, BusTag, LinkKind};
use crate::capture::CaptureSession;
use crate::j1979::decode::decode_spec;
use crate::j1979::pid::decode_pid;
use crate::text::owned;
use crate::transport::{Frame, FrameDir};
use vstd::prelude::*;

verus! {

/// The request/response pairs of the sample capture, in the order they were
/// exchanged: one pass of identification and reads, then dashboard cycles.
pub open spec fn sample_pairs() -> Seq<(Seq<char>, Seq<char>)> {
    seq![
        ("ATI"@, "ELM327 SAMPLE"@),
        ("ATDP"@, "ISO 15765-4 (CAN 11/500)"@),
        ("0902"@, "4902013146544657314535304D46413030303030"@),
        ("0100"@, "4100BE3EA813"@),
        ("010C"@, "410C1AF8"@),
        ("010D"@, "410D00"@),
        ("0105"@, "41056A"@),
        ("0111"@, "411180"@),
        ("0104"@, "410440"@),
        ("03"@, "430301"@),
        ("07"@, "470000"@),
        ("010C"@, "410C1B00"@),
        ("010D"@, "410D20"@),
        ("0105"@, "41056B"@),
        ("0111"@, "411190"@),
        ("0104"@, "410450"@),
        ("010C"@, "410C1C00"@),
        ("010D"@, "410D30"@),
        ("0105"@, "41056C"@),
        ("0111"@, "4111A0"@),
        ("0104"@, "410460"@),
    ]
}

/// Frame `k` of a capture built from `pairs`: the request of pair `k / 2`
/// when `k` is even, its response when odd, both on the HS bus.
pub open spec fn pair_frame_matches(f: Frame, pairs: Seq<(Seq<char>, Seq<char>)>, k: int) -> bool {
    &&& f.bus == BusTag::Hs
    &&& if k % 2 == 0 {
        f.dir == FrameDir::Tx && f.data@ == pairs[k / 2].0
    } else {
        f.dir == FrameDir::Rx && f.data@ == pairs[k / 2].1
    }
}

/// The vehicle snapshot stored with the sample capture.
pub open spec fn sample_vehicle_yaml() -> Seq<char> {
    "id: generic_j1979\nname: Generic J1979\nmakes: [\"*\"]\nnotes: Sample fixture profile.\ndual_bus: false\npids: []\nmodules: []\n"@
}

/// Build the demo capture: metadata of a replayed ELM327 on CAN 11/500, the
/// frame log of `sample_pairs`, one decoded RPM sample, and a generic vehicle
/// snapshot.
pub fn sample_session() -> (r: CaptureSession)
    ensures
        r.meta.software@ == "obd-sim"@,
        r.meta.vin matches Some(v) && v@ == "1FTFW1E50MFA00000"@,
        r.meta.adapter_path@ == "replay://sample"@,
        r.meta.capabilities.elm_compatible,
        !r.meta.capabilities.stn,
        !r.meta.capabilities.ms_can,
        r.meta.capabilities.link == LinkKind::Other,
        r.meta.capabilities.identity@ == "ELM327 SAMPLE"@,
        r.meta.capabilities.protocol@ == "ISO 15765-4 (CAN 11/500)"@,
        r.meta.profile_id matches Some(p) && p@ == "generic_j1979"@,
        r.meta.notes@ == "Synthetic fixture for CI and offline TUI."@,
        r.meta.ended_at is None,
        r.frames@.len() == 2 * sample_pairs().len(),
        forall|k: int|
            0 <= k < r.frames@.len() ==> pair_frame_matches(#[trigger] r.frames@[k], sample_pairs(), k),
        match decode_spec("410C1AF8"@, Some(0x0Cu8)) {
            Some(v) => {
                &&& r.signals@.len() == 1
                &&& r.signals@[0].name@ == v.name
                &&& r.signals@[0].value == v.value
                &&& r.signals@[0].unit@ == v.unit
                &&& r.signals@[0].mode == v.mode
                &&& r.signals@[0].pid == v.pid
                &&& r.signals@[0].bus == BusTag::Hs
            },
            None => r.signals@.len() == 0,
        },
        r.vehicle_yaml matches Some(y) && y@ == sample_vehicle_yaml(),
{
    let mut session = CaptureSession::new("obd-sim");
    session.meta.vin = Some(owned("1FTFW1E50MFA00000"));
    session.meta.adapter_path = owned("replay://sample");
    session.meta.capabilities = AdapterCapabilities {
        elm_compatible: true,
        stn: false,
        ms_can: false,
        link: LinkKind::Other,
        identity: owned("ELM327 SAMPLE"),
        protocol: owned("ISO 15765-4 (CAN 11/500)"),
    };
    session.meta.profile_id = Some(owned("generic_j1979"));
    session.meta.notes = owned("Synthetic fixture for CI and offline TUI.");

    let pairs: [(&str, &str); 21] = [
        ("ATI", "ELM327 SAMPLE"),
        ("ATDP", "ISO 15765-4 (CAN 11/500)"),
        ("0902", "4902013146544657314535304D46413030303030"),
        ("0100", "4100BE3EA813"),
        ("010C", "410C1AF8"),
        ("010D", "410D00"),
        ("0105", "41056A"),
        ("0111", "411180"),
        ("0104", "410440"),
        ("03", "430301"),
        ("07", "470000"),
        ("010C", "410C1B00"),
        ("010D", "410D20"),
        ("0105", "41056B"),
        ("0111", "411190"),
        ("0104", "410450"),
        ("010C", "410C1C00"),
        ("010D", "410D30"),
        ("0105", "41056C"),
        ("0111", "4111A0"),
        ("0104", "410460"),
    ];
    assert(pairs@.map_values(|p: (&str, &str)| (p.0@, p.1@)) =~= sample_pairs());
    let ghost spairs = pairs@.map_values(|p: (&str, &str)| (p.0@, p.1@));
    for i in 0..21
        invariant
            spairs == sample_pairs(),
            spairs == pairs@.map_values(|p: (&str, &str)| (p.0@, p.1@)),
            session.frames@.len() == 2 * i,
            forall|k: int|
                0 <= k < session.frames@.len() ==> pair_frame_matches(
                    #[trigger] session.frames@[k],
                    spairs,
                    k,
                ),
            session.signals@.len() == 0,
            session.meta.software@ == "obd-sim"@,
            session.meta.vin matches Some(v) && v@ == "1FTFW1E50MFA00000"@,
            session.meta.adapter_path@ == "replay://sample"@,
            session.meta.capabilities.elm_compatible,
            !session.meta.capabilities.stn,
            !session.meta.capabilities.ms_can,
            session.meta.capabilities.link == LinkKind::Other,
            session.meta.capabilities.identity@ == "ELM327 SAMPLE"@,
            session.meta.capabilities.protocol@ == "ISO 15765-4 (CAN 11/500)"@,
            session.meta.profile_id matches Some(p) && p@ == "generic_j1979"@,
            session.meta.notes@ == "Synthetic fixture for CI and offline TUI."@,
            session.meta.ended_at is None,
            session.vehicle_yaml is None,
    {
        let (tx, rx) = pairs[i];
        assert(spairs[i as int] == (tx@, rx@));
        let ghost before = session.frames@;
        session.push_frame(Frame::tx(BusTag::Hs, tx));
        session.push_frame(Frame::rx(BusTag::Hs, rx));
        assert forall|k: int| 0 <= k < session.frames@.len() implies pair_frame_matches(
            #[trigger] session.frames@[k],
            spairs,
            k,
        ) by {
            if k < 2 * i {
                assert(session.frames@[k] == before[k]);
            } else if k == 2 * i {
                assert(k / 2 == i);
            } else {
                assert(k / 2 == i);
            }
        }
    }

    if let Ok(live) = decode_pid("410C1AF8", Some(0x0C)) {
        session.push_live(&live, BusTag::Hs);
    }
    session.vehicle_yaml = Some(
        owned(
            "id: generic_j1979\nname: Generic J1979\nmakes: [\"*\"]\nnotes: Sample fixture profile.\ndual_bus: false\npids: []\nmodules: []\n",
        ),
    );
    session
}

} // verus!
