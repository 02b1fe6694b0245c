//! Ford / generic module read scaffold (safe read-only probes).
use crate::bus::{bus_tag_text, BusTag};
use crate::error::{error_text, Error};
use crate::capture::CaptureSession;
use crate::session::{answer, bus_answer, command_answer, recorded, replies, VehicleSession};
use crate::transport::FrameDir;
use crate::text::{chars_of, contains, contains_chars, owned, sviews, upper, upper_of};
use crate::transport::Transport;
use vstd::prelude::*;

verus! {

/// Known module probe target.
#[derive(Debug, Clone)]
pub struct ModuleProbe {
    pub id: String,
    pub name: String,
    pub bus: BusTag,
    /// Optional raw ELM/STN setup commands before read.
    pub setup: Vec<String>,
    /// OBD/UDS-style request (hex) for a simple identity probe.
    pub probe_cmd: String,
    pub notes: String,
}

/// Default Ford module probe list (read-only; expands from captures over time).
pub fn ford_module_probes() -> (r: Vec<ModuleProbe>)
    ensures
        r@.len() == 2,
        r@[0].id@ == "pcm"@ && r@[0].name@ == "Powertrain Control Module"@ && r@[0].bus
            == BusTag::Hs && r@[0].setup@.len() == 0 && r@[0].probe_cmd@ == "0902"@
            && r@[0].notes@ == "Standard OBD on HS-CAN."@,
        r@[1].id@ == "obd_std"@ && r@[1].name@ == "OBD functional"@ && r@[1].bus == BusTag::Hs
            && r@[1].setup@.len() == 0 && r@[1].probe_cmd@ == "0100"@ && r@[1].notes@
            == "Supported PID bitmap."@,
{
    let mut v: Vec<ModuleProbe> = Vec::new();
    v.push(
        ModuleProbe {
            id: owned("pcm"),
            name: owned("Powertrain Control Module"),
            bus: BusTag::Hs,
            setup: Vec::new(),
            probe_cmd: owned("0902"),
            notes: owned("Standard OBD on HS-CAN."),
        },
    );
    v.push(
        ModuleProbe {
            id: owned("obd_std"),
            name: owned("OBD functional"),
            bus: BusTag::Hs,
            setup: Vec::new(),
            probe_cmd: owned("0100"),
            notes: owned("Supported PID bitmap."),
        },
    );
    v
}

/// Result of one module probe.
#[derive(Debug, Clone)]
pub struct ModuleProbeResult {
    pub id: String,
    pub bus: String,
    pub ok: bool,
    pub response: String,
    pub error: Option<String>,
}

/// Whether a probe response counts as an answer.
pub open spec fn probe_ok(resp: Seq<char>) -> bool {
    resp.len() > 0 && !contains(upper(resp), "UNABLE"@) && !contains(upper(resp), "ERROR"@)
}

/// What a probe result says of its probe, whatever the adapter answered: it
/// names the probe and its bus; a failure carries an error and no response;
/// an answer is judged by [`probe_ok`].
pub open spec fn result_of_probe(r: ModuleProbeResult, p: ModuleProbe) -> bool {
    &&& r.id@ == p.id@
    &&& r.bus@ == bus_tag_text(p.bus)
    &&& match r.error {
        Some(_) => !r.ok && r.response@.len() == 0,
        None => r.ok == probe_ok(r.response@),
    }
}

fn answered(resp: &String) -> (r: bool)
    ensures
        r == probe_ok(resp@),
{
    let up = upper_of(&chars_of(resp.as_str()));
    !resp.as_str().is_empty() && !contains_chars(&up, &chars_of("UNABLE")) && !contains_chars(
        &up,
        &chars_of("ERROR"),
    )
}

/// The capture after each of `cmds` was sent in turn, each recorded with an
/// answer the transport gives to it.
pub open spec fn commands_sent<T: Transport>(
    before: Option<CaptureSession>,
    after: Option<CaptureSession>,
    cmds: Seq<Seq<char>>,
) -> bool
    decreases cmds.len(),
{
    if cmds.len() == 0 {
        after == before
    } else {
        exists|mid: Option<CaptureSession>, a: Result<String, Error>|
            commands_sent::<T>(before, mid, cmds.drop_last()) && command_answer::<T>(
                cmds.last(),
                a,
            ) && #[trigger] recorded(mid, after, cmds.last(), answer(a))
    }
}

/// What one probe did and what its result says of it: either the transport
/// refused its bus (nothing sent, the result carries that error), or the
/// transport accepted its bus, its setup commands and then its probe command
/// were sent, and the result holds the transport's answer to the probe
/// command (or the error it gave instead).
pub open spec fn probe_step<T: Transport>(
    before: Option<CaptureSession>,
    after: Option<CaptureSession>,
    p: ModuleProbe,
    res: ModuleProbeResult,
) -> bool {
    ||| exists|e: Error|
        #[trigger] bus_answer::<T>(p.bus, Err(e)) && after == before && (res.error matches Some(m)
            && m@ == error_text(e))
    ||| bus_answer::<T>(p.bus, Ok(())) && exists|mid: Option<CaptureSession>, a: Result<String, Error>|
        #![trigger commands_sent::<T>(before, mid, sviews(p.setup@)), recorded(mid, after, p.probe_cmd@, answer(a))]
        commands_sent::<T>(before, mid, sviews(p.setup@)) && command_answer::<T>(p.probe_cmd@, a)
            && recorded(mid, after, p.probe_cmd@, answer(a)) && match a {
            Ok(x) => res.error is None && res.response@ == x@,
            Err(e) => res.error matches Some(m) && m@ == error_text(e),
        }
}

/// Run read-only probes on the session (does not program modules), then
/// ask the transport for the HS bus again: the transport ends as that last
/// request left it. Never fails; one result per probe, in order: each probe
/// selects its bus, sends its setup commands and its probe command, and its
/// result is judged from the probe command's answer.
pub fn probe_modules<T: Transport>(session: &mut VehicleSession<T>, probes: &[ModuleProbe]) -> (r:
    Result<Vec<ModuleProbeResult>, Error>)
    ensures
        final(session).same_settings(&*old(session)),
        r matches Ok(out) && out@.len() == probes@.len() && (forall|i: int|
            0 <= i < probes@.len() ==> result_of_probe(#[trigger] out@[i], probes@[i])) && exists|
            caps: Seq<Option<CaptureSession>>,
        |
            #![trigger caps.len()]
            caps.len() == probes@.len() + 1 && caps[0] == old(session).capture && caps.last()
                == final(session).capture && forall|i: int|
                0 <= i < probes@.len() ==> probe_step::<T>(
                    caps[i],
                    caps[i + 1],
                    probes@[i],
                    #[trigger] out@[i],
                ),
        exists|t: &mut T, h: Result<(), Error>|
            *final(t) == final(session).transport && #[trigger] call_ensures(
                T::select_bus,
                (t, BusTag::Hs),
                h,
            ),
{
    let ghost start = *session;
    let mut out: Vec<ModuleProbeResult> = Vec::new();
    let ghost mut caps: Seq<Option<CaptureSession>> = seq![session.capture];
    let mut k: usize = 0;
    while k < probes.len()
        invariant
            k <= probes@.len(),
            out@.len() == k,
            session.same_settings(&start),
            start == *old(session),
            forall|i: int| 0 <= i < k ==> result_of_probe(#[trigger] out@[i], probes@[i]),
            caps.len() == k + 1,
            caps[0] == start.capture,
            caps.last() == session.capture,
            forall|i: int| 0 <= i < k ==> probe_step::<T>(caps[i], caps[i + 1], probes@[i], #[trigger] out@[i]),
        decreases probes@.len() - k,
    {
        let p = &probes[k];
        let ghost c0 = session.capture;
        let sel = session.select_bus(p.bus);
        let ghost selected = sel;
        match sel {
            Err(e) => {
                let res = ModuleProbeResult {
                    id: p.id.clone(),
                    bus: owned(p.bus.as_str()),
                    ok: false,
                    response: String::new(),
                    error: Some(e.message()),
                };
                proof {
                    assert(bus_answer::<T>(p.bus, Err(e)));
                    assert(probe_step::<T>(c0, session.capture, probes@[k as int], res));
                }
                out.push(res);
                proof {
                    let oc = caps;
                    caps = caps.push(session.capture);
                    assert forall|i: int| 0 <= i < k + 1 implies probe_step::<T>(
                        caps[i],
                        caps[i + 1],
                        probes@[i],
                        #[trigger] out@[i],
                    ) by {
                        if i < k {
                            assert(caps[i] == oc[i] && caps[i + 1] == oc[i + 1]);
                        }
                    }
                }
                k += 1;
                continue;
            },
            Ok(()) => {},
        }
        assert(selected == Ok::<(), Error>(())) by {
            let u: () = selected->Ok_0;
            assert(u == ());
        }
        assert(bus_answer::<T>(p.bus, Ok(())));
        let ghost c1 = session.capture;
        let ghost setup = sviews(p.setup@);
        let mut s: usize = 0;
        while s < p.setup.len()
            invariant
                s <= p.setup@.len(),
                setup == sviews(p.setup@),
                session.same_settings(&start),
                commands_sent::<T>(c1, session.capture, setup.take(s as int)),
                bus_answer::<T>(p.bus, Ok(())),
            decreases p.setup@.len() - s,
        {
            let ghost prev = session.capture;
            let ans = session.raw(p.setup[s].as_str());
            proof {
                let t = setup.take(s + 1);
                assert(t.drop_last() =~= setup.take(s as int));
                assert(t.last() == p.setup@[s as int]@);
                assert(recorded(prev, session.capture, t.last(), answer(ans)));
                assert(command_answer::<T>(t.last(), ans));
                assert(commands_sent::<T>(c1, session.capture, t));
            }
            s += 1;
        }
        assert(setup.take(p.setup@.len() as int) =~= setup);
        let ghost c2 = session.capture;
        let ans = session.raw(p.probe_cmd.as_str());
        let ghost answered_with = ans;
        let res = match ans {
            Ok(resp) => {
                let ok = answered(&resp);
                ModuleProbeResult {
                    id: p.id.clone(),
                    bus: owned(p.bus.as_str()),
                    ok,
                    response: resp,
                    error: None,
                }
            },
            Err(e) => {
                ModuleProbeResult {
                    id: p.id.clone(),
                    bus: owned(p.bus.as_str()),
                    ok: false,
                    response: String::new(),
                    error: Some(e.message()),
                }
            },
        };
        proof {
            assert(commands_sent::<T>(c1, c2, sviews(probes@[k as int].setup@)));
            assert(command_answer::<T>(p.probe_cmd@, answered_with));
            assert(recorded(c2, session.capture, p.probe_cmd@, answer(answered_with)));
            match answered_with {
                Ok(x) => assert(res.error is None && res.response@ == x@),
                Err(e) => assert(res.error matches Some(m) && m@ == error_text(e)),
            }
            assert(probe_step::<T>(c0, session.capture, probes@[k as int], res));
        }
        out.push(res);
        proof {
            let oc = caps;
            caps = caps.push(session.capture);
            assert forall|i: int| 0 <= i < k + 1 implies probe_step::<T>(
                caps[i],
                caps[i + 1],
                probes@[i],
                #[trigger] out@[i],
            ) by {
                if i < k {
                    assert(caps[i] == oc[i] && caps[i + 1] == oc[i + 1]);
                }
            }
        }
        k += 1;
    }
    let ghost before_hs = session.capture;
    let _ = session.select_bus(BusTag::Hs);
    assert(session.capture == before_hs);
    Ok(out)
}

/// STN/OBDLink protocol select for HS-CAN: ISO 15765-4 CAN 11/500.
pub fn stn_select_hs() -> (r: Vec<&'static str>)
    ensures
        r@.len() == 1 && r@[0]@ == "ATSP6"@,
{
    vec!["ATSP6"]
}

/// STN protocol select for MS-CAN: STN protocol 53 (CAN 11 bit @ 125 kbaud,
/// Ford MS-CAN class), then the `ATSPB C350` form.
pub fn stn_select_ms() -> (r: Vec<&'static str>)
    ensures
        r@.len() == 2 && r@[0]@ == "STP53"@ && r@[1]@ == "ATSPB C350"@,
{
    vec!["STP53", "ATSPB C350"]
}

/// The STN commands that select a bus, in the order they are tried.
pub open spec fn stn_commands(bus: BusTag) -> Seq<Seq<char>> {
    match bus {
        BusTag::Hs => seq!["ATSP6"@],
        BusTag::Ms => seq!["STP53"@, "ATSPB C350"@],
        BusTag::Unknown => Seq::empty(),
    }
}

/// The capture after each of `cmds` was sent in turn and none was answered:
/// one transmitted frame per command appended, in order; metadata, samples
/// and snapshot unchanged. Without a capture, none appears.
pub open spec fn tried_unanswered(
    before: Option<CaptureSession>,
    after: Option<CaptureSession>,
    cmds: Seq<Seq<char>>,
) -> bool {
    match before {
        None => after is None,
        Some(c) => match after {
            None => false,
            Some(d) => {
                let n = c.frames@.len() as int;
                &&& d.meta == c.meta
                &&& d.vehicle_yaml == c.vehicle_yaml
                &&& d.signals@ == c.signals@
                &&& d.frames@.len() == n + cmds.len()
                &&& d.frames@.subrange(0, n) == c.frames@
                &&& forall|i: int|
                    0 <= i < cmds.len() ==> (#[trigger] d.frames@[n + i]).dir == FrameDir::Tx
                        && d.frames@[n + i].data@ == cmds[i]
            },
        },
    }
}

/// Apply bus selection via raw AT/ST commands when transport select is
/// limited: the commands of [`stn_commands`] are sent in order until one is
/// answered, and then the bus is selected on the transport, whose answer is
/// returned; when none is answered the selection fails with the transport's
/// error for the last command. An unknown bus sends nothing.
pub fn apply_stn_bus<T: Transport>(session: &mut VehicleSession<T>, bus: BusTag) -> (r: Result<
    (),
    Error,
>)
    ensures
        bus == BusTag::Unknown ==> r is Ok && *final(session) == *old(session),
        final(session).same_settings(&*old(session)),
        bus != BusTag::Unknown ==> exists|n: int, mid: Option<CaptureSession>|
            0 <= n <= stn_commands(bus).len() && #[trigger] tried_unanswered(
                old(session).capture,
                mid,
                stn_commands(bus).take(n),
            ) && if n < stn_commands(bus).len() {
                (exists|x: Seq<char>|
                    replies::<T>(stn_commands(bus)[n], x) && #[trigger] recorded(
                        mid,
                        final(session).capture,
                        stn_commands(bus)[n],
                        Some(x),
                    )) && exists|t: &mut T|
                    *final(t) == final(session).transport && #[trigger] call_ensures(
                        T::select_bus,
                        (t, bus),
                        r,
                    )
            } else {
                final(session).capture == mid && (r matches Err(e) && command_answer::<T>(
                    stn_commands(bus).last(),
                    Err(e),
                ))
            },
{
    let cmds = match bus {
        BusTag::Hs => stn_select_hs(),
        BusTag::Ms => stn_select_ms(),
        BusTag::Unknown => return Ok(()),
    };
    let ghost want = stn_commands(bus);
    assert(sviews_str(cmds@) =~= want);
    let ghost start = *session;
    proof {
        let cap0 = start.capture;
        if let Some(c) = cap0 {
            assert(c.frames@.subrange(0, c.frames@.len() as int) =~= c.frames@);
        }
        assert(want.take(0).len() == 0);
    }
    let mut last_err: Option<Error> = None;
    let mut k: usize = 0;
    while k < cmds.len()
        invariant
            k <= cmds@.len(),
            bus != BusTag::Unknown,
            want == stn_commands(bus),
            sviews_str(cmds@) == want,
            session.same_settings(&start),
            start == *old(session),
            tried_unanswered(start.capture, session.capture, want.take(k as int)),
            k > 0 ==> (last_err matches Some(e) && command_answer::<T>(want[k - 1], Err(e))),
        decreases cmds@.len() - k,
    {
        let ghost prev = session.capture;
        assert(cmds@[k as int]@ == want[k as int]);
        match session.raw(cmds[k]) {
            Ok(resp) => {
                let ghost mid = session.capture;
                assert(recorded(prev, mid, want[k as int], Some(resp@)));
                assert(replies::<T>(want[k as int], resp@));
                let sel = session.select_bus(bus);
                assert(session.capture == mid);
                proof {
                    assert(tried_unanswered(start.capture, prev, want.take(k as int)));
                }
                return sel;
            },
            Err(e) => {
                proof {
                    let t = want.take(k + 1);
                    assert(want.len() == cmds@.len());
                    assert(t.len() == k + 1);
                    assert(t.drop_last() =~= want.take(k as int));
                    assert(t.last() == want[k as int]);
                    assert(recorded(prev, session.capture, t.last(), None));
                    if let Some(c) = start.capture {
                        let p = prev->Some_0;
                        let d = session.capture->Some_0;
                        let n = c.frames@.len() as int;
                        assert(d.frames@.subrange(0, p.frames@.len() as int) == p.frames@);
                        assert(d.frames@.subrange(0, n) =~= c.frames@) by {
                            assert(p.frames@.subrange(0, n) == c.frames@);
                            assert forall|i: int| 0 <= i < n implies d.frames@[i] == c.frames@[i] by {
                                assert(d.frames@[i] == p.frames@[i]);
                                assert(p.frames@[i] == c.frames@[i]);
                            }
                        }
                        assert forall|i: int| 0 <= i < t.len() implies (#[trigger] d.frames@[n
                            + i]).dir == FrameDir::Tx && d.frames@[n + i].data@ == t[i] by {
                            if i < k {
                                assert(d.frames@[n + i] == p.frames@[n + i]);
                            }
                        }
                    }
                    assert(tried_unanswered(start.capture, session.capture, t));
                }
                let ghost failed = e;
                last_err = Some(e);
                assert(command_answer::<T>(want[k as int], Err(failed)));
            },
        }
        k += 1;
    }
    proof {
        assert(want.take(k as int) =~= want);
        assert(want.take(want.len() as int) =~= want);
    }
    match last_err {
        Some(e) => Err(e),
        None => Err(Error::Protocol(owned("could not select bus on this adapter"))),
    }
}

/// The texts of a list of string slices.
pub open spec fn sviews_str(v: Seq<&str>) -> Seq<Seq<char>> {
    v.map_values(|s: &str| s@)
}

} // verus!
