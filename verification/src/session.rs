//! High-level vehicle session: transport + capture + J1979 helpers.
use crate::bus::{AdapterCapabilities, BusTag};
use crate::capture::{CaptureSession, SessionMeta};
use crate::error::Error;
use crate::j1979::decode::{decode_error, decode_spec};
use crate::j1979::dtc::{clear_dtc_command, dtc_command, dtcs_spec, dtc_views, parse_clear_ack, parse_dtcs, clear_refused, Dtc, DtcStatus, DtcView};
use crate::j1979::pid::{
    bitmap_data, decode_pid, lemma_low_base_fits, mode01_command, mode09_command,
    pid_def_views, pid_supported_bitmap, standard_pid_defs, standard_pid_table, supported_upto,
    vin_spec, vin_error_message, parse_vin, odd_hex_message, LiveValue, LiveValueView, PidDef, PidDefView,
};
use crate::profile::{profile_pid_views, resolve_pids, VehicleProfile};
use crate::text::{hex2, keep_hex, owned};
use crate::transport::{Frame, FrameDir, Transport};
use vstd::prelude::*;

verus! {

/// The capture after one command went out: its frames grew by a transmitted
/// frame with the command and, when the transport answered, a received frame
/// with the answer on the same bus; its metadata and snapshot are unchanged.
/// Without a capture, none appears.
pub open spec fn recorded(
    before: Option<CaptureSession>,
    after: Option<CaptureSession>,
    cmd: Seq<char>,
    resp: Option<Seq<char>>,
) -> bool {
    match before {
        None => after is None,
        Some(c) => match after {
            None => false,
            Some(d) => {
                let n = c.frames@.len() as int;
                &&& d.meta == c.meta
                &&& d.vehicle_yaml == c.vehicle_yaml
                &&& d.signals@ == c.signals@
                &&& d.frames@.len() > n
                &&& d.frames@.subrange(0, n) == c.frames@
                &&& d.frames@[n].dir == FrameDir::Tx
                &&& d.frames@[n].data@ == cmd
                &&& match resp {
                    Some(r) => {
                        &&& d.frames@.len() == n + 2
                        &&& d.frames@[n + 1].dir == FrameDir::Rx
                        &&& d.frames@[n + 1].data@ == r
                        &&& d.frames@[n + 1].bus == d.frames@[n].bus
                    },
                    None => d.frames@.len() == n + 1,
                }
            },
        },
    }
}

/// The transport answers a request to select `bus` with `res`, in some state
/// (`select_bus` may give this answer).
pub open spec fn bus_answer<T: Transport>(bus: BusTag, res: Result<(), Error>) -> bool {
    exists|t: &mut T| #[trigger] call_ensures(T::select_bus, (t, bus), res)
}

/// The transport answers `cmd` with `res`, in some state (`transact` may
/// give this answer).
pub open spec fn command_answer<T: Transport>(cmd: Seq<char>, res: Result<String, Error>) -> bool {
    exists|t: &mut T, c: &str| c@ == cmd && #[trigger] call_ensures(T::transact, (t, c), res)
}

/// One exchange on the transport: `t` holds the transport as it was, `t0`,
/// and its `transact` of `cmd` answered `res` (the transport then holds what
/// `t` finally holds).
pub open spec fn exchanged<T: Transport>(t: &mut T, t0: T, cmd: Seq<char>, res: Result<String, Error>) -> bool {
    *t == t0 && exists|c: &str| c@ == cmd && #[trigger] call_ensures(T::transact, (t, c), res)
}

proof fn lemma_exchanged<T: Transport>(t0: T, t1: T, cmd: &str, res: Result<String, Error>)
    requires
        exists|t: &mut T| *t == t0 && *final(t) == t1 && #[trigger] call_ensures(T::transact, (t, cmd), res),
    ensures
        exists|t: &mut T| *final(t) == t1 && #[trigger] exchanged::<T>(t, t0, cmd@, res),
{
    let t = choose|t: &mut T| *t == t0 && *final(t) == t1 && #[trigger] call_ensures(T::transact, (t, cmd), res);
    assert(exchanged::<T>(t, t0, cmd@, res));
}

/// The transport answers `cmd` with a reply whose text is `x`.
pub open spec fn replies<T: Transport>(cmd: Seq<char>, x: Seq<char>) -> bool {
    exists|s: String| s@ == x && #[trigger] command_answer::<T>(cmd, Ok(s))
}

pub open spec fn answer(r: Result<String, Error>) -> Option<Seq<char>> {
    match r {
        Ok(x) => Some(x@),
        Err(_) => None,
    }
}

/// The capture after a decoded value was logged: one sample appended with the
/// value's name, number, unit, mode and PID; frames, metadata and snapshot
/// unchanged. Without a capture, none appears.
pub open spec fn sample_logged(
    before: Option<CaptureSession>,
    after: Option<CaptureSession>,
    v: LiveValueView,
) -> bool {
    match before {
        None => after is None,
        Some(c) => match after {
            None => false,
            Some(d) => {
                &&& d.meta == c.meta
                &&& d.vehicle_yaml == c.vehicle_yaml
                &&& d.frames@ == c.frames@
                &&& d.signals@.len() == c.signals@.len() + 1
                &&& d.signals@.drop_last() == c.signals@
                &&& d.signals@.last().name@ == v.name
                &&& d.signals@.last().value == v.value
                &&& d.signals@.last().unit@ == v.unit
                &&& d.signals@.last().mode == v.mode
                &&& d.signals@.last().pid == v.pid
            },
        },
    }
}

/// The PIDs of Mode 01 entries of `defs` that are supported (any, when
/// `supported` is empty), in order.
pub open spec fn dashboard_pids(defs: Seq<PidDefView>, supported: Seq<u8>) -> Seq<u8>
    decreases defs.len(),
{
    if defs.len() == 0 {
        Seq::empty()
    } else {
        let d = defs.last();
        let rest = dashboard_pids(defs.drop_last(), supported);
        if d.mode == 0x01 && (supported.len() == 0 || supported.contains(d.pid)) {
            rest.push(d.pid)
        } else {
            rest
        }
    }
}

/// The PIDs polled when no dashboard PID answers: RPM, speed, coolant and
/// throttle.
pub open spec fn fallback_pids() -> Seq<u8> {
    seq![0x0Cu8, 0x0D, 0x05, 0x11]
}

/// The views of a list of readings.
pub open spec fn live_views(v: Seq<LiveValue>) -> Seq<LiveValueView> {
    v.map_values(|x: LiveValue| x@)
}

/// What the answers to requests for `pids` decode to, in order: an answer
/// that is an error or does not decode gives no reading.
pub open spec fn readings_of(pids: Seq<u8>, answers: Seq<Result<String, Error>>) -> Seq<LiveValueView>
    decreases pids.len(),
{
    if pids.len() == 0 || answers.len() != pids.len() {
        Seq::empty()
    } else {
        let prev = readings_of(pids.drop_last(), answers.drop_last());
        match answers.last() {
            Ok(x) => match decode_spec(x@, Some(pids.last())) {
                Some(v) => prev.push(v),
                None => prev,
            },
            Err(_) => prev,
        }
    }
}

/// The reading one answer gives: none for an error or an answer that does
/// not decode.
pub open spec fn reading_of(pid: u8, a: Result<String, Error>) -> Seq<LiveValueView> {
    match a {
        Ok(x) => match decode_spec(x@, Some(pid)) {
            Some(v) => seq![v],
            None => Seq::empty(),
        },
        Err(_) => Seq::empty(),
    }
}

proof fn lemma_chain_cons<T: Transport>(
    tp: T,
    tm: T,
    tl: T,
    pid: u8,
    tail: Seq<u8>,
    views0: Seq<LiveValueView>,
    views1: Seq<LiveValueView>,
    views2: Seq<LiveValueView>,
)
    requires
        exists|a: Result<String, Error>, t: &mut T|
            *final(t) == tm && #[trigger] exchanged::<T>(t, tp, "01"@ + hex2(pid), a) && views1
                == views0 + reading_of(pid, a),
        exists|ts1: Seq<T>, ans1: Seq<Result<String, Error>>, ms_ts1: Seq<&mut T>|
            #![trigger ts1.len(), ans1.len(), ms_ts1.len()]
            ts1.len() == ans1.len() + 1 && ts1[0] == tm && ts1.last() == tl
                && ans1.len() == (tail).len() && ms_ts1.len() == ans1.len() && (forall|m: int|
                #![trigger ms_ts1[m]]
                0 <= m < ms_ts1.len() ==> *ms_ts1[m] == ts1[m] && *final(ms_ts1[m]) == ts1[m + 1]
                    && exchanged::<T>(ms_ts1[m], ts1[m], "01"@ + hex2((tail)[m]), ans1[m])) && views2 == views1 + readings_of(tail, ans1),
    ensures
        exists|ts: Seq<T>, answers: Seq<Result<String, Error>>, ms_ts: Seq<&mut T>|
            #![trigger ts.len(), answers.len(), ms_ts.len()]
            ts.len() == answers.len() + 1 && ts[0] == tp && ts.last() == tl
                && answers.len() == (seq![pid] + tail).len() && ms_ts.len() == answers.len() && (forall|m: int|
                #![trigger ms_ts[m]]
                0 <= m < ms_ts.len() ==> *ms_ts[m] == ts[m] && *final(ms_ts[m]) == ts[m + 1]
                    && exchanged::<T>(ms_ts[m], ts[m], "01"@ + hex2((seq![pid] + tail)[m]), answers[m])) && views2 == views0 + readings_of(
                seq![pid] + tail,
                answers,
            ),
{
    let (a, t0) = choose|a: Result<String, Error>, t: &mut T|
        *final(t) == tm && #[trigger] exchanged::<T>(t, tp, "01"@ + hex2(pid), a) && views1 == views0
            + reading_of(pid, a);
    let (ts1, ans1, ms_ts1) = choose|ts1: Seq<T>, ans1: Seq<Result<String, Error>>, ms_ts1: Seq<&mut T>|
        #![trigger ts1.len(), ans1.len(), ms_ts1.len()]
        ts1.len() == ans1.len() + 1 && ts1[0] == tm && ts1.last() == tl
                && ans1.len() == (tail).len() && ms_ts1.len() == ans1.len() && (forall|m: int|
                #![trigger ms_ts1[m]]
                0 <= m < ms_ts1.len() ==> *ms_ts1[m] == ts1[m] && *final(ms_ts1[m]) == ts1[m + 1]
                    && exchanged::<T>(ms_ts1[m], ts1[m], "01"@ + hex2((tail)[m]), ans1[m])) && views2 == views1 + readings_of(tail, ans1);
    assert(ts1.len() == ans1.len() + 1);
    assert(views1 == views0 + reading_of(pid, a));
    let rest = seq![pid] + tail;
    let ts = seq![tp] + ts1;
    let answers = seq![a] + ans1;
    let ms_ts = seq![t0] + ms_ts1;
    lemma_readings_cons(pid, tail, a, ans1);
    assert(views2 =~= views0 + readings_of(rest, answers));
    assert(*t0 == tp);
    assert forall|m: int|
        #![trigger ms_ts[m]]
        0 <= m < ms_ts.len() implies *ms_ts[m] == ts[m] && *final(ms_ts[m]) == ts[m + 1]
            && exchanged::<T>(ms_ts[m], ts[m], "01"@ + hex2(rest[m]), answers[m]) by {
        if m == 0 {
            assert(ms_ts[0] == t0);
            assert(ts[1] == ts1[0]);
        } else {
            assert(ms_ts[m] == ms_ts1[m - 1]);
            assert(answers[m] == ans1[m - 1]);
            assert(ts[m] == ts1[m - 1]);
            assert(ts[m + 1] == ts1[m]);
            assert(rest[m] == tail[m - 1]);
        }
    }
    assert(ts.last() == ts1.last());
    assert(ts[0] == tp);
    assert(ms_ts.len() == answers.len());
    assert(answers.len() == (seq![pid] + tail).len());
}

proof fn lemma_readings_cons(
    pid: u8,
    pids: Seq<u8>,
    a: Result<String, Error>,
    answers: Seq<Result<String, Error>>,
)
    requires
        answers.len() == pids.len(),
    ensures
        readings_of(seq![pid] + pids, seq![a] + answers) == reading_of(pid, a) + readings_of(
            pids,
            answers,
        ),
    decreases pids.len(),
{
    if pids.len() == 0 {
        assert((seq![pid] + pids).drop_last() =~= Seq::<u8>::empty());
        assert((seq![a] + answers).drop_last() =~= Seq::<Result<String, Error>>::empty());
        assert(seq![pid] + pids =~= seq![pid]);
        assert(seq![a] + answers =~= seq![a]);
        assert(reading_of(pid, a) + readings_of(pids, answers) =~= reading_of(pid, a));
        assert(readings_of(Seq::<u8>::empty(), Seq::<Result<String, Error>>::empty()) =~= Seq::<LiveValueView>::empty());
        match a {
            Ok(x) => match decode_spec(x@, Some(pid)) {
                Some(v) => {
                    assert(Seq::<LiveValueView>::empty().push(v) =~= seq![v]);
                },
                None => {},
            },
            Err(_) => {},
        }
    } else {
        lemma_readings_cons(pid, pids.drop_last(), a, answers.drop_last());
        let pp = seq![pid] + pids;
        let aa = seq![a] + answers;
        assert(pp.drop_last() =~= seq![pid] + pids.drop_last());
        assert(aa.drop_last() =~= seq![a] + answers.drop_last());
        assert(pp.last() == pids.last());
        assert(aa.last() == answers.last());
        let q = readings_of(pids.drop_last(), answers.drop_last());
        match answers.last() {
            Ok(x) => match decode_spec(x@, Some(pids.last())) {
                Some(v) => {
                    assert((reading_of(pid, a) + q).push(v) =~= reading_of(pid, a) + q.push(v));
                },
                None => {},
            },
            Err(_) => {},
        }
    }
}

/// What a support bitmap response gives: its PIDs, or none when it does not parse.
pub open spec fn bitmap_or_empty(x: Seq<char>) -> Seq<u8> {
    match bitmap_data(x) {
        Some(d) => supported_upto(d, 0, 32),
        None => Seq::empty(),
    }
}

/// The DTC list a pending-codes response adds: its codes, or none when it does not parse.
pub open spec fn pending_or_empty(x: Seq<char>) -> Seq<DtcView> {
    match dtcs_spec(x, DtcStatus::Pending) {
        Some(d) => d,
        None => Seq::empty(),
    }
}

/// Read-oriented session over a [`Transport`].
pub struct VehicleSession<T: Transport> {
    /// The adapter or replay source commands go through.
    pub transport: T,
    pub profile: VehicleProfile,
    pub capture: Option<CaptureSession>,
    pub vin: Option<String>,
    pub supported_pids: Vec<u8>,
    /// Software name and version stamped into captures.
    pub software: String,
    /// When false (default), clear-DTC is refused.
    pub allow_writes: bool,
}

impl<T: Transport> VehicleSession<T> {
    /// Everything but the transport and the capture is unchanged.
    pub open spec fn same_settings(&self, other: &Self) -> bool {
        &&& self.profile == other.profile
        &&& self.vin == other.vin
        &&& self.supported_pids@ == other.supported_pids@
        &&& self.allow_writes == other.allow_writes
        &&& self.software@ == other.software@
    }

    pub fn new(transport: T, profile: VehicleProfile, software: &str) -> (r: Self)
        ensures
            r.transport == transport,
            r.profile == profile,
            r.capture is None,
            r.vin is None,
            r.supported_pids@.len() == 0,
            r.software@ == software@,
            !r.allow_writes,
    {
        VehicleSession {
            transport,
            profile,
            capture: None,
            vin: None,
            supported_pids: Vec::new(),
            software: owned(software),
            allow_writes: false,
        }
    }

    /// The transport's name.
    pub fn transport_name(&self) -> (r: &str)
        ensures
            call_ensures(T::name, (&self.transport,), r),
    {
        self.transport.name()
    }

    /// The transport's capabilities.
    pub fn capabilities(&self) -> (r: &AdapterCapabilities)
        ensures
            call_ensures(T::capabilities, (&self.transport,), r),
    {
        self.transport.capabilities()
    }

    /// The transport's active bus.
    pub fn active_bus(&self) -> (r: BusTag)
        ensures
            call_ensures(T::active_bus, (&self.transport,), r),
    {
        self.transport.active_bus()
    }

    /// Initializes the transport and answers what it answered; nothing else
    /// changes.
    pub fn init(&mut self) -> (r: Result<(), Error>)
        ensures
            final(self).same_settings(&*old(self)),
            final(self).capture == old(self).capture,
            exists|t: &mut T|
                *t == old(self).transport && *final(t) == final(self).transport
                    && #[trigger] call_ensures(T::init, (t,), r),
    {
        self.transport.init()
    }

    /// Starts a capture stamped with the session's software, adapter and
    /// profile, holding the given profile snapshot.
    pub fn start_capture(&mut self, profile_yaml: Option<String>)
        ensures
            final(self).same_settings(&*old(self)),
            final(self).transport == old(self).transport,
            final(self).capture matches Some(c) && c.meta.software@ == old(self).software@
                && c.meta.profile_id == Some(old(self).profile.id) && c.vehicle_yaml
                == profile_yaml && c.frames@.len() == 0 && c.signals@.len() == 0 && c.meta.vin is None
                && (exists|n: &str|
                #[trigger] call_ensures(T::name, (&old(self).transport,), n) && c.meta.adapter_path@
                    == n@) && (exists|k: &AdapterCapabilities|
                #[trigger] call_ensures(T::capabilities, (&old(self).transport,), k)
                    && c.meta.capabilities == *k),
    {
        let mut cap = CaptureSession::new(self.software.as_str());
        cap.meta.adapter_path = owned(self.transport.name());
        cap.meta.capabilities = self.transport.capabilities().duplicate();
        cap.meta.profile_id = Some(self.profile.id.clone());
        cap.vehicle_yaml = profile_yaml;
        self.capture = Some(cap);
    }

    /// Ends the capture and hands it out for saving, stamped with the VIN when
    /// one was read.
    pub fn stop_capture(&mut self) -> (r: Option<CaptureSession>)
        ensures
            final(self).capture is None,
            final(self).same_settings(&*old(self)),
            final(self).transport == old(self).transport,
            match old(self).capture {
                None => r is None,
                Some(c) => r matches Some(d) && d.frames == c.frames && d.signals == c.signals
                    && d.vehicle_yaml == c.vehicle_yaml && d.meta == (SessionMeta {
                    vin: if old(self).vin is Some {
                        old(self).vin
                    } else {
                        c.meta.vin
                    },
                    ..c.meta
                }),
            },
    {
        match self.capture.take() {
            Some(mut cap) => {
                if let Some(vin) = &self.vin {
                    cap.meta.vin = Some(vin.clone());
                }
                Some(cap)
            },
            None => None,
        }
    }

    fn transact_recorded(&mut self, command: &str) -> (r: Result<String, Error>)
        ensures
            recorded(old(self).capture, final(self).capture, command@, answer(r)),
            final(self).same_settings(&*old(self)),
            exists|t: &mut T|
                *t == old(self).transport && *final(t) == final(self).transport
                    && #[trigger] call_ensures(T::transact, (t, command), r),
            exists|t: &mut T|
                *final(t) == final(self).transport && #[trigger] exchanged::<T>(
                    t,
                    old(self).transport,
                    command@,
                    r,
                ),
            command_answer::<T>(command@, r),
    {
        let ghost t0 = self.transport;
        let bus = self.transport.active_bus();
        let ghost before = self.capture;
        match &mut self.capture {
            Some(cap) => cap.push_frame(Frame::tx(bus, command)),
            None => {},
        }
        let ghost mid = self.capture;
        let answered = self.transport.transact(command);
        proof {
            lemma_exchanged::<T>(t0, self.transport, command, answered);
        }
        let resp = match answered {
            Ok(x) => x,
            Err(e) => {
                proof {
                    if let Some(c) = before {
                        let d = mid->Some_0;
                        assert(d.frames@.subrange(0, c.frames@.len() as int) =~= c.frames@);
                    }
                }
                return Err(e);
            },
        };
        match &mut self.capture {
            Some(cap) => cap.push_frame(Frame::rx(bus, resp.as_str())),
            None => {},
        }
        proof {
            if let Some(c) = before {
                let d = self.capture->Some_0;
                assert(d.frames@.subrange(0, c.frames@.len() as int) =~= c.frames@);
            }
        }
        Ok(resp)
    }

    /// Reads the VIN (Mode 09 PID 02) and remembers it.
    pub fn read_vin(&mut self) -> (r: Result<String, Error>)
        ensures
            final(self).profile == old(self).profile,
            final(self).supported_pids@ == old(self).supported_pids@,
            final(self).allow_writes == old(self).allow_writes,
            final(self).software@ == old(self).software@,
            match r {
                Ok(v) => final(self).vin == Some(v) && exists|x: Seq<char>|
                    vin_spec(x) == Some(v@) && replies::<T>("09"@ + hex2(0x02), x) && #[trigger] recorded(
                        old(self).capture,
                        final(self).capture,
                        "09"@ + hex2(0x02),
                        Some(x),
                    ),
                Err(e) => final(self).vin == old(self).vin && ((command_answer::<T>(
                    "09"@ + hex2(0x02),
                    Err(e),
                ) && recorded(old(self).capture, final(self).capture, "09"@ + hex2(0x02), None))
                    || exists|x: Seq<char>|
                    vin_spec(x) is None && (e matches Error::Decode(m) && m@ == vin_error_message(x))
                        && replies::<T>("09"@ + hex2(0x02), x) && #[trigger] recorded(
                        old(self).capture,
                        final(self).capture,
                        "09"@ + hex2(0x02),
                        Some(x),
                    )),
            },
            exists|t: &mut T, a: Result<String, Error>|
                *final(t) == final(self).transport && #[trigger] exchanged::<T>(
                    t,
                    old(self).transport,
                    "09"@ + hex2(0x02),
                    a,
                ) && match a {
                    Err(e) => r == Err::<String, Error>(e),
                    Ok(x) => match vin_spec(x@) {
                        Some(v) => r matches Ok(w) && w@ == v,
                        None => r matches Err(Error::Decode(m)) && m@ == vin_error_message(x@),
                    },
                },
    {
        let cmd = mode09_command(0x02);
        let r = self.transact_recorded(cmd.as_str());
        let resp = match r {
            Ok(x) => x,
            Err(e) => {
                assert(recorded(old(self).capture, self.capture, cmd@, None));
                return Err(e);
            },
        };
        assert(recorded(old(self).capture, self.capture, cmd@, Some(resp@)));
        match parse_vin(resp.as_str()) {
            Ok(vin) => {
                self.vin = Some(vin.clone());
                Ok(vin)
            },
            Err(e) => Err(e),
        }
    }

    /// Reads the support bitmap of PIDs 01–20 and remembers it; a bitmap that
    /// does not parse gives no PIDs.
    pub fn probe_supported_pids(&mut self) -> (r: Result<Vec<u8>, Error>)
        ensures
            final(self).profile == old(self).profile,
            final(self).vin == old(self).vin,
            final(self).allow_writes == old(self).allow_writes,
            final(self).software@ == old(self).software@,
            match r {
                Ok(p) => final(self).supported_pids@ == p@ && exists|x: Seq<char>|
                    p@ == bitmap_or_empty(x) && replies::<T>("01"@ + hex2(0x00), x) && #[trigger] recorded(
                        old(self).capture,
                        final(self).capture,
                        "01"@ + hex2(0x00),
                        Some(x),
                    ),
                Err(e) => final(self).supported_pids@ == old(self).supported_pids@
                    && command_answer::<T>("01"@ + hex2(0x00), Err(e)) && recorded(
                    old(self).capture,
                    final(self).capture,
                    "01"@ + hex2(0x00),
                    None,
                ),
            },
            exists|t: &mut T, a: Result<String, Error>|
                *final(t) == final(self).transport && #[trigger] exchanged::<T>(
                    t,
                    old(self).transport,
                    "01"@ + hex2(0x00),
                    a,
                ) && match a {
                    Err(e) => r == Err::<Vec<u8>, Error>(e),
                    Ok(x) => r matches Ok(p) && p@ == bitmap_or_empty(x@),
                },
    {
        let cmd = mode01_command(0x00);
        let resp = match self.transact_recorded(cmd.as_str()) {
            Ok(x) => x,
            Err(e) => {
                assert(recorded(old(self).capture, self.capture, cmd@, None));
                return Err(e);
            },
        };
        assert(recorded(old(self).capture, self.capture, cmd@, Some(resp@)));
        proof {
            lemma_low_base_fits(resp@, 0);
        }
        let pids = match pid_supported_bitmap(resp.as_str(), 0x00) {
            Ok(p) => p,
            Err(_) => Vec::new(),
        };
        assert(pids@ == bitmap_or_empty(resp@));
        let copy = pids.clone();
        assert(copy@ =~= pids@);
        self.supported_pids = copy;
        Ok(pids)
    }

    /// Reads one Mode 01 PID; a capture also records the decoded value.
    pub fn read_pid(&mut self, pid: u8) -> (r: Result<LiveValue, Error>)
        ensures
            final(self).same_settings(&*old(self)),
            (old(self).capture is Some) == (final(self).capture is Some),
            match r {
                Ok(v) => v.pid == pid && exists|x: Seq<char>, mid: Option<CaptureSession>|
                    decode_spec(x, Some(pid)) == Some(v@) && replies::<T>("01"@ + hex2(pid), x)
                        && #[trigger] recorded(
                        old(self).capture,
                        mid,
                        "01"@ + hex2(pid),
                        Some(x),
                    ) && #[trigger] sample_logged(mid, final(self).capture, v@),
                Err(e) => (command_answer::<T>("01"@ + hex2(pid), Err(e)) && recorded(
                    old(self).capture,
                    final(self).capture,
                    "01"@ + hex2(pid),
                    None,
                )) || exists|x: Seq<char>|
                    decode_spec(x, Some(pid)) is None && (e matches Error::Decode(m) && m@
                        == decode_error(x, Some(pid))) && replies::<T>("01"@ + hex2(pid), x)
                        && #[trigger] recorded(
                        old(self).capture,
                        final(self).capture,
                        "01"@ + hex2(pid),
                        Some(x),
                    ),
            },
            exists|t: &mut T, a: Result<String, Error>|
                *final(t) == final(self).transport && #[trigger] exchanged::<T>(
                    t,
                    old(self).transport,
                    "01"@ + hex2(pid),
                    a,
                ) && match a {
                    Err(e) => r == Err::<LiveValue, Error>(e),
                    Ok(x) => match decode_spec(x@, Some(pid)) {
                        Some(w) => r matches Ok(v) && v@ == w,
                        None => r matches Err(Error::Decode(m)) && m@ == decode_error(x@, Some(pid)),
                    },
                },
    {
        let cmd = mode01_command(pid);
        let resp = match self.transact_recorded(cmd.as_str()) {
            Ok(x) => x,
            Err(e) => {
                assert(recorded(old(self).capture, self.capture, cmd@, None));
                return Err(e);
            },
        };
        let ghost mid = self.capture;
        assert(recorded(old(self).capture, mid, cmd@, Some(resp@)));
        let live = match decode_pid(resp.as_str(), Some(pid)) {
            Ok(v) => v,
            Err(e) => {
                return Err(e);
            },
        };
        assert(decode_spec(resp@, Some(pid)) == Some(live@));
        let bus = self.transport.active_bus();
        match &mut self.capture {
            Some(cap) => cap.push_live(&live, bus),
            None => {},
        }
        assert(sample_logged(mid, self.capture, live@));
        Ok(live)
    }

    /// The PIDs the dashboard polls, in table order: the Mode 01 entries of the
    /// resolved table that the ECU reports as supported (all of them when
    /// support is unknown).
    pub open spec fn dashboard_pid_list(&self) -> Seq<u8> {
        dashboard_pids(
            resolve_pids(standard_pid_table(), profile_pid_views(self.profile.pids@)),
            self.supported_pids@,
        )
    }

    /// The dashboard PIDs of a resolved table, in table order.
    fn dashboard_pid_vec(&self, defs: &Vec<PidDef>) -> (r: Vec<u8>)
        ensures
            r@ == dashboard_pids(pid_def_views(defs@), self.supported_pids@),
    {
        let ghost dv = pid_def_views(defs@);
        let mut list: Vec<u8> = Vec::new();
        let mut k: usize = 0;
        while k < defs.len()
            invariant
                k <= defs@.len(),
                dv == pid_def_views(defs@),
                list@ == dashboard_pids(dv.subrange(0, k as int), self.supported_pids@),
            decreases defs@.len() - k,
        {
            let def = &defs[k];
            proof {
                assert(dv.subrange(0, k + 1).drop_last() =~= dv.subrange(0, k as int));
                assert(dv[k as int] == def@);
            }
            if def.mode == 0x01 && (self.supported_pids.len() == 0 || contains_u8(
                &self.supported_pids,
                def.pid,
            )) {
                list.push(def.pid);
            }
            k += 1;
        }
        assert(dv.subrange(0, defs@.len() as int) =~= dv);
        list
    }

    /// Reads the PIDs `pids[from..]` one after another, appending what each
    /// answer decodes to.
    fn read_pids_from(&mut self, pids: &Vec<u8>, from: usize, out: &mut Vec<LiveValue>)
        requires
            from <= pids@.len(),
        ensures
            final(self).same_settings(&*old(self)),
            exists|ts: Seq<T>, answers: Seq<Result<String, Error>>, ms_ts: Seq<&mut T>|
                #![trigger ts.len(), answers.len(), ms_ts.len()]
                ts.len() == answers.len() + 1 && ts[0] == old(self).transport && ts.last() == final(self).transport
                && answers.len() == (pids@.subrange(from as int, pids@.len() as int)).len() && ms_ts.len() == answers.len() && (forall|m: int|
                #![trigger ms_ts[m]]
                0 <= m < ms_ts.len() ==> *ms_ts[m] == ts[m] && *final(ms_ts[m]) == ts[m + 1]
                    && exchanged::<T>(ms_ts[m], ts[m], "01"@ + hex2((pids@.subrange(from as int, pids@.len() as int))[m]), answers[m]))
                && live_views(final(out)@) == live_views(old(out)@) + readings_of(
                pids@.subrange(from as int, pids@.len() as int),
                answers,
            ),
        decreases pids@.len() - from,
    {
        let ghost rest = pids@.subrange(from as int, pids@.len() as int);
        if from == pids.len() {
            proof {
                let ts: Seq<T> = seq![self.transport];
                let answers: Seq<Result<String, Error>> = Seq::empty();
                let ms_ts: Seq<&mut T> = Seq::empty();
                assert(rest.len() == 0);
                assert(live_views(out@) + readings_of(rest, answers) =~= live_views(out@));
                assert(ts.len() == answers.len() + 1 && ts[0] == old(self).transport && ts.last() == self.transport
                && answers.len() == (rest).len() && ms_ts.len() == answers.len() && (forall|m: int|
                #![trigger ms_ts[m]]
                0 <= m < ms_ts.len() ==> *ms_ts[m] == ts[m] && *final(ms_ts[m]) == ts[m + 1]
                    && exchanged::<T>(ms_ts[m], ts[m], "01"@ + hex2((rest)[m]), answers[m])));
            }
            return ;
        }
        let pid = pids[from];
        let ghost tp = self.transport;
        let rr = self.read_pid(pid);
        let ghost tm = self.transport;
        let ghost views0 = live_views(out@);
        let ghost answered = rr;
        match rr {
            Ok(v) => {
                out.push(v);
            },
            Err(_) => {},
        }
        let ghost views1 = live_views(out@);
        self.read_pids_from(pids, from + 1, out);
        proof {
            let tail = pids@.subrange(from + 1, pids@.len() as int);
            assert(rest =~= seq![pid] + tail);
            match answered {
                Ok(v) => {
                    assert(views1 =~= views0.push(v@));
                },
                Err(_) => {},
            }
            assert(exists|a: Result<String, Error>, t: &mut T|
                *final(t) == tm && #[trigger] exchanged::<T>(t, tp, "01"@ + hex2(pid), a) && views1
                    == views0 + reading_of(pid, a));
            lemma_chain_cons::<T>(tp, tm, self.transport, pid, tail, views0, views1, live_views(out@));
        }
    }

    /// Polls every dashboard PID in table order, skipping failures; when none
    /// answers, polls RPM, speed, coolant and throttle instead. Never fails:
    /// the readings are what the transport's answers decode to, the requests
    /// made one after another on the session's transport.
    pub fn poll_dashboard(&mut self) -> (r: Result<Vec<LiveValue>, Error>)
        ensures
            final(self).same_settings(&*old(self)),
            r matches Ok(out) && exists|
                ts: Seq<T>,
                answers: Seq<Result<String, Error>>,
                ms_ts: Seq<&mut T>,
            |
                #![trigger ts.len(), answers.len(), ms_ts.len()]
                {
                    let list = old(self).dashboard_pid_list();
                    &&& ts.len() == answers.len() + 1
                    &&& ts[0] == old(self).transport
                    &&& answers.len() == list.len()
                    &&& ms_ts.len() == answers.len()
                    &&& forall|m: int|
                        #![trigger ms_ts[m]]
                        0 <= m < ms_ts.len() ==> *ms_ts[m] == ts[m] && *final(ms_ts[m]) == ts[m + 1]
                            && exchanged::<T>(ms_ts[m], ts[m], "01"@ + hex2(list[m]), answers[m])
                    &&& if readings_of(list, answers).len() > 0 {
                        ts.last() == final(self).transport && live_views(out@) == readings_of(
                            list,
                            answers,
                        )
                    } else {
                        exists|
                            fs: Seq<T>,
                            fallback: Seq<Result<String, Error>>,
                            ms_fs: Seq<&mut T>,
                        |
                            #![trigger fs.len(), fallback.len(), ms_fs.len()]
                            {
                                &&& fs.len() == fallback.len() + 1
                                &&& fs[0] == ts.last()
                                &&& fs.last() == final(self).transport
                                &&& fallback.len() == fallback_pids().len()
                                &&& ms_fs.len() == fallback.len()
                                &&& forall|m: int|
                                    #![trigger ms_fs[m]]
                                    0 <= m < ms_fs.len() ==> *ms_fs[m] == fs[m] && *final(ms_fs[m])
                                        == fs[m + 1] && exchanged::<T>(
                                        ms_fs[m],
                                        fs[m],
                                        "01"@ + hex2(fallback_pids()[m]),
                                        fallback[m],
                                    )
                                &&& live_views(out@) == readings_of(fallback_pids(), fallback)
                            }
                    }
                },
    {
        let defs: Vec<PidDef> = self.profile.resolved_pids();
        let list = self.dashboard_pid_vec(&defs);
        let ghost t0 = self.transport;
        let mut out: Vec<LiveValue> = Vec::new();
        self.read_pids_from(&list, 0, &mut out);
        let ghost t1 = self.transport;
        assert(list@.subrange(0, list@.len() as int) =~= list@);
        assert(live_views(Seq::<LiveValue>::empty()) =~= Seq::<LiveValueView>::empty());
        if out.len() == 0 {
            let fallback: Vec<u8> = vec![0x0C, 0x0D, 0x05, 0x11];
            self.read_pids_from(&fallback, 0, &mut out);
            assert(fallback@.subrange(0, 4) =~= fallback_pids());
        }
        Ok(out)
    }

    /// Reads stored (Mode 03) and pending (Mode 07) codes; a pending response
    /// that does not parse adds no codes. Fails when the stored request gets
    /// no answer, when its answer does not parse, or when the pending request
    /// gets no answer.
    pub fn read_dtcs(&mut self) -> (r: Result<Vec<Dtc>, Error>)
        ensures
            final(self).same_settings(&*old(self)),
            match r {
                Ok(all) => exists|xs: Seq<char>, xp: Seq<char>, mid: Option<CaptureSession>|
                    #![trigger recorded(old(self).capture, mid, hex2(0x03), Some(xs)), recorded(mid, final(self).capture, hex2(0x07), Some(xp))]
                    recorded(old(self).capture, mid, hex2(0x03), Some(xs)) && recorded(
                        mid,
                        final(self).capture,
                        hex2(0x07),
                        Some(xp),
                    ) && replies::<T>(hex2(0x03), xs) && replies::<T>(hex2(0x07), xp) && (dtcs_spec(
                        xs,
                        DtcStatus::Stored,
                    ) matches Some(st) && dtc_views(all@) == st + pending_or_empty(xp)),
                Err(e) => (command_answer::<T>(hex2(0x03), Err(e)) && recorded(
                    old(self).capture,
                    final(self).capture,
                    hex2(0x03),
                    None,
                )) || (exists|xs: Seq<char>|
                    dtcs_spec(xs, DtcStatus::Stored) is None && (e matches Error::Decode(m) && m@
                        == odd_hex_message(keep_hex(xs))) && replies::<T>(hex2(0x03), xs)
                        && #[trigger] recorded(
                        old(self).capture,
                        final(self).capture,
                        hex2(0x03),
                        Some(xs),
                    )) || (exists|xs: Seq<char>, mid: Option<CaptureSession>|
                    #![trigger recorded(old(self).capture, mid, hex2(0x03), Some(xs)), recorded(mid, final(self).capture, hex2(0x07), None)]
                    dtcs_spec(xs, DtcStatus::Stored) is Some && replies::<T>(hex2(0x03), xs)
                        && command_answer::<T>(hex2(0x07), Err(e)) && recorded(
                        old(self).capture,
                        mid,
                        hex2(0x03),
                        Some(xs),
                    ) && recorded(mid, final(self).capture, hex2(0x07), None)),
            },
            exists|t1: &mut T, a1: Result<String, Error>|
                #[trigger] exchanged::<T>(t1, old(self).transport, hex2(0x03), a1) && match a1 {
                    Err(e) => r == Err::<Vec<Dtc>, Error>(e) && *final(t1) == final(self).transport,
                    Ok(xs) => match dtcs_spec(xs@, DtcStatus::Stored) {
                        None => (r matches Err(Error::Decode(m)) && m@ == odd_hex_message(
                            keep_hex(xs@),
                        )) && *final(t1) == final(self).transport,
                        Some(st) => exists|t2: &mut T, a2: Result<String, Error>|
                            *final(t2) == final(self).transport && #[trigger] exchanged::<T>(
                                t2,
                                *final(t1),
                                hex2(0x07),
                                a2,
                            ) && match a2 {
                                Err(e) => r == Err::<Vec<Dtc>, Error>(e),
                                Ok(xp) => r matches Ok(all) && dtc_views(all@) == st
                                    + pending_or_empty(xp@),
                            },
                    },
                },
    {
        let stored = match self.transact_recorded(dtc_command(0x03).as_str()) {
            Ok(x) => x,
            Err(e) => {
                assert(recorded(old(self).capture, self.capture, hex2(0x03), None));
                return Err(e);
            },
        };
        let ghost mid = self.capture;
        assert(recorded(old(self).capture, mid, hex2(0x03), Some(stored@)));
        let mut all = match parse_dtcs(stored.as_str(), DtcStatus::Stored) {
            Ok(d) => d,
            Err(e) => {
                return Err(e);
            },
        };
        let pending = match self.transact_recorded(dtc_command(0x07).as_str()) {
            Ok(x) => x,
            Err(e) => {
                assert(recorded(mid, self.capture, hex2(0x07), None));
                return Err(e);
            },
        };
        assert(recorded(mid, self.capture, hex2(0x07), Some(pending@)));
        let ghost first = dtc_views(all@);
        let more = match parse_dtcs(pending.as_str(), DtcStatus::Pending) {
            Ok(d) => d,
            Err(_) => Vec::new(),
        };
        assert(dtc_views(more@) == pending_or_empty(pending@));
        let mut m = more;
        all.append(&mut m);
        assert(dtc_views(all@) =~= first + pending_or_empty(pending@));
        Ok(all)
    }

    /// Clear stored DTCs. Requires `allow_writes`: otherwise nothing is sent
    /// and the session is unchanged.
    pub fn clear_dtcs(&mut self) -> (r: Result<(), Error>)
        ensures
            !old(self).allow_writes ==> (r matches Err(Error::WriteGated(m)) && m@
                == "enable writes to clear DTCs (read-only default)"@) && *final(self) == *old(self),
            old(self).allow_writes ==> final(self).same_settings(&*old(self)) && match r {
                Ok(_) => exists|x: Seq<char>|
                    !clear_refused(x) && replies::<T>("04"@, x) && #[trigger] recorded(
                        old(self).capture,
                        final(self).capture,
                        "04"@,
                        Some(x),
                    ),
                Err(e) => (command_answer::<T>("04"@, Err(e)) && recorded(
                    old(self).capture,
                    final(self).capture,
                    "04"@,
                    None,
                )) || exists|x: Seq<char>|
                    clear_refused(x) && (e matches Error::Protocol(m) && m@ == "clear DTC failed: "@
                        + x) && replies::<T>("04"@, x) && #[trigger] recorded(
                        old(self).capture,
                        final(self).capture,
                        "04"@,
                        Some(x),
                    ),
            },
            old(self).allow_writes ==> exists|t: &mut T, a: Result<String, Error>|
                *final(t) == final(self).transport && #[trigger] exchanged::<T>(
                    t,
                    old(self).transport,
                    "04"@,
                    a,
                ) && match a {
                    Err(e) => r == Err::<(), Error>(e),
                    Ok(x) => if clear_refused(x@) {
                        r matches Err(Error::Protocol(m)) && m@ == "clear DTC failed: "@ + x@
                    } else {
                        r is Ok
                    },
                },
    {
        if !self.allow_writes {
            return Err(Error::WriteGated(owned("enable writes to clear DTCs (read-only default)")));
        }
        let resp = match self.transact_recorded(clear_dtc_command()) {
            Ok(x) => x,
            Err(e) => {
                assert(recorded(old(self).capture, self.capture, "04"@, None));
                return Err(e);
            },
        };
        assert(recorded(old(self).capture, self.capture, "04"@, Some(resp@)));
        parse_clear_ack(resp.as_str())
    }

    /// Selects a bus on the transport and answers what it answered.
    pub fn select_bus(&mut self, bus: BusTag) -> (r: Result<(), Error>)
        ensures
            final(self).same_settings(&*old(self)),
            final(self).capture == old(self).capture,
            exists|t: &mut T|
                *t == old(self).transport && *final(t) == final(self).transport
                    && #[trigger] call_ensures(T::select_bus, (t, bus), r),
    {
        self.transport.select_bus(bus)
    }

    /// Raw command for advanced use / TUI debug; recorded like any other, and
    /// answered with what the transport answered.
    pub fn raw(&mut self, command: &str) -> (r: Result<String, Error>)
        ensures
            recorded(old(self).capture, final(self).capture, command@, answer(r)),
            final(self).same_settings(&*old(self)),
            exists|t: &mut T|
                *t == old(self).transport && *final(t) == final(self).transport
                    && #[trigger] call_ensures(T::transact, (t, command), r),
            exists|t: &mut T|
                *final(t) == final(self).transport && #[trigger] exchanged::<T>(
                    t,
                    old(self).transport,
                    command@,
                    r,
                ),
            command_answer::<T>(command@, r),
    {
        self.transact_recorded(command)
    }

    /// The dashboard table: the standard table when the profile names no
    /// PIDs, else the profile merged into it.
    pub fn dashboard_pid_defs(&self) -> (r: Vec<PidDef>)
        ensures
            pid_def_views(r@) == if self.profile.pids@.len() == 0 {
                standard_pid_table()
            } else {
                resolve_pids(standard_pid_table(), profile_pid_views(self.profile.pids@))
            },
    {
        if self.profile.pids.len() == 0 {
            standard_pid_defs()
        } else {
            self.profile.resolved_pids()
        }
    }
}

fn contains_u8(v: &Vec<u8>, x: u8) -> (r: bool)
    ensures
        r == v@.contains(x),
{
    let mut i: usize = 0;
    while i < v.len()
        invariant
            i <= v@.len(),
            forall|j: int| 0 <= j < i ==> v@[j] != x,
        decreases v@.len() - i,
    {
        if v[i] == x {
            assert(v@[i as int] == x);
            return true;
        }
        i += 1;
    }
    false
}

} // verus!
