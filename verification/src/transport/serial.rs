//! Decisions of the ELM327 / STN serial and Bluetooth SPP adapters: response
//! cleaning, identity and capability detection, protocol lock, addresses.
use crate::bus::{AdapterCapabilities, LinkKind};
use crate::error::Error;
use crate::j1979::pid::hex_pairs;
use crate::text::{
    chars_eq, chars_of, concat, contains, contains_chars, cviews, hex_digit_value, is_hex_digit,
    is_text, join_chars, join_with, keep_hex, lemma_keep_hex_all_hex, lines, lines_of, lower,
    lower_of, owned, push_str, string_of, trim, trim_chars, upper, upper_of,
};
use crate::transport::link::{mac_spec, mac_text, normalize_bt_mac};
use vstd::prelude::*;

verus! {

/// `s` without carriage returns.
pub open spec fn drop_cr(s: Seq<char>) -> Seq<char>
    decreases s.len(),
{
    if s.len() == 0 {
        Seq::empty()
    } else if s.last() == '\r' {
        drop_cr(s.drop_last())
    } else {
        drop_cr(s.drop_last()).push(s.last())
    }
}

/// Adapter chatter that carries no data.
pub open spec fn bus_noise(l: Seq<char>) -> bool {
    let u = upper(l);
    u == "SEARCHING..."@ || u == "STOPPED"@ || u == "ERROR"@ || u == "?"@ || contains(
        u,
        "UNABLE TO CONNECT"@,
    ) || contains(u, "BUS INIT"@) || contains(u, "CAN ERROR"@)
}

/// Which lines of an adapter reply are kept.
#[derive(Clone, Copy, PartialEq, Eq, Structural)]
pub enum LineFilter {
    /// Serial ELM replies: non-empty lines other than `SEARCHING...`.
    Serial,
    /// Bluetooth replies: non-empty lines that are not bus noise.
    Bluetooth,
    /// Identity banners: non-empty lines that are neither noise nor `OK`.
    Identity,
}

pub open spec fn line_kept(f: LineFilter, l: Seq<char>) -> bool {
    l.len() > 0 && match f {
        LineFilter::Serial => l != "SEARCHING..."@,
        LineFilter::Bluetooth => !bus_noise(l),
        LineFilter::Identity => !bus_noise(l) && l != "OK"@,
    }
}

/// The trimmed lines that a filter keeps, in order.
pub open spec fn kept_lines(ls: Seq<Seq<char>>, f: LineFilter) -> Seq<Seq<char>>
    decreases ls.len(),
{
    if ls.len() == 0 {
        Seq::empty()
    } else if line_kept(f, trim(ls.last())) {
        kept_lines(ls.drop_last(), f).push(trim(ls.last()))
    } else {
        kept_lines(ls.drop_last(), f)
    }
}

/// A serial reply as the ELM transport hands it on: carriage returns removed,
/// lines trimmed, `SEARCHING...` and blank lines dropped, joined with `\n`.
pub open spec fn elm_clean(s: Seq<char>) -> Seq<char> {
    join_with(kept_lines(lines(drop_cr(s)), LineFilter::Serial), "\n"@)
}

/// A Bluetooth reply as that transport hands it on: like the serial one, but
/// every bus-noise line is dropped.
pub open spec fn bt_clean(s: Seq<char>) -> Seq<char> {
    join_with(kept_lines(lines(drop_cr(s)), LineFilter::Bluetooth), "\n"@)
}

/// An identity banner on one line: meaningful lines joined with spaces.
pub open spec fn identity_text(s: Seq<char>) -> Seq<char> {
    join_with(kept_lines(lines(s), LineFilter::Identity), " "@)
}

fn noise(l: &Vec<char>) -> (r: bool)
    ensures
        r == bus_noise(l@),
{
    let u = upper_of(l);
    is_text(&u, "SEARCHING...") || is_text(&u, "STOPPED") || is_text(&u, "ERROR") || is_text(
        &u,
        "?",
    ) || contains_chars(&u, &chars_of("UNABLE TO CONNECT")) || contains_chars(
        &u,
        &chars_of("BUS INIT"),
    ) || contains_chars(&u, &chars_of("CAN ERROR"))
}

fn keeps(f: LineFilter, l: &Vec<char>) -> (r: bool)
    ensures
        r == line_kept(f, l@),
{
    if l.len() == 0 {
        return false;
    }
    match f {
        LineFilter::Serial => !is_text(l, "SEARCHING..."),
        LineFilter::Bluetooth => !noise(l),
        LineFilter::Identity => !noise(l) && !is_text(l, "OK"),
    }
}

fn without_cr(s: &Vec<char>) -> (r: Vec<char>)
    ensures
        r@ == drop_cr(s@),
{
    let mut r: Vec<char> = Vec::new();
    for i in 0..s.len()
        invariant
            r@ == drop_cr(s@.subrange(0, i as int)),
    {
        proof {
            assert(s@.subrange(0, i + 1).drop_last() =~= s@.subrange(0, i as int));
        }
        if s[i] != '\r' {
            r.push(s[i]);
        }
    }
    assert(s@.subrange(0, s@.len() as int) =~= s@);
    r
}

fn filter_lines(ls: &Vec<Vec<char>>, f: LineFilter) -> (r: Vec<Vec<char>>)
    ensures
        cviews(r@) == kept_lines(cviews(ls@), f),
{
    let mut r: Vec<Vec<char>> = Vec::new();
    let mut i: usize = 0;
    while i < ls.len()
        invariant
            i <= ls@.len(),
            cviews(r@) == kept_lines(cviews(ls@).subrange(0, i as int), f),
        decreases ls@.len() - i,
    {
        let t = trim_chars(&ls[i]);
        let ghost before = cviews(r@);
        proof {
            let pre = cviews(ls@).subrange(0, i + 1);
            assert(pre.drop_last() =~= cviews(ls@).subrange(0, i as int));
            assert(pre.last() == ls@[i as int]@);
        }
        if keeps(f, &t) {
            r.push(t);
            assert(cviews(r@) =~= before.push(trim(ls@[i as int]@)));
        }
        i += 1;
    }
    assert(cviews(ls@).subrange(0, ls@.len() as int) =~= cviews(ls@));
    r
}

/// Cleans a raw serial ELM reply.
pub fn clean_response(raw: &str) -> (r: String)
    ensures
        r@ == elm_clean(raw@),
        lines(r@) == lines(raw@.filter(|c: char| c != '\r')).map_values(|l: Seq<char>| trim(l)).filter(
            |l: Seq<char>| l.len() > 0 && l != "SEARCHING..."@,
        ),
{
    let ls = lines_of(&without_cr(&chars_of(raw)));
    let kept = filter_lines(&ls, LineFilter::Serial);
    let r = string_of(&join_chars(&kept, &chars_of("\n")));
    proof {
        lemma_clean_response_lines(raw@);
    }
    r
}

/// Cleans a raw Bluetooth SPP reply.
pub fn clean_bt_response(raw: &str) -> (r: String)
    ensures
        r@ == bt_clean(raw@),
        lines(r@) == lines(raw@.filter(|c: char| c != '\r')).map_values(|l: Seq<char>| trim(l)).filter(
            |l: Seq<char>| l.len() > 0 && !bus_noise(l),
        ),
{
    let ls = lines_of(&without_cr(&chars_of(raw)));
    let kept = filter_lines(&ls, LineFilter::Bluetooth);
    let r = string_of(&join_chars(&kept, &chars_of("\n")));
    proof {
        lemma_clean_bt_response_lines(raw@);
    }
    r
}

/// Whether a reply line is adapter chatter.
pub fn is_bus_noise(line: &str) -> (r: bool)
    ensures
        r == bus_noise(line@),
{
    noise(&chars_of(line))
}

/// The identity banner on one line.
pub fn sanitize_identity(s: &str) -> (r: String)
    ensures
        r@ == identity_text(s@),
{
    let ls = lines_of(&chars_of(s));
    let kept = filter_lines(&ls, LineFilter::Identity);
    string_of(&join_chars(&kept, &chars_of(" ")))
}

/// Device names that look like an OBD adapter's serial port.
pub open spec fn likely_obd_port(name: Seq<char>) -> bool {
    let n = lower(name);
    contains(n, "ttyusb"@) || contains(n, "ttyacm"@) || contains(n, "cu.usb"@) || contains(
        n,
        "usbserial"@,
    ) || contains(n, "rfcomm"@) || contains(n, "obd"@) || contains(n, "serial"@)
}

pub fn is_likely_obd_port(name: &str) -> (r: bool)
    ensures
        r == likely_obd_port(name@),
{
    let n = lower_of(&chars_of(name));
    contains_chars(&n, &chars_of("ttyusb")) || contains_chars(&n, &chars_of("ttyacm"))
        || contains_chars(&n, &chars_of("cu.usb")) || contains_chars(&n, &chars_of("usbserial"))
        || contains_chars(&n, &chars_of("rfcomm")) || contains_chars(&n, &chars_of("obd"))
        || contains_chars(&n, &chars_of("serial"))
}

/// STN / OBDLink class adapters (which often expose multi-bus) by their banners.
pub open spec fn ms_can_hint(identity: Seq<char>, stdi: Seq<char>) -> bool {
    let blob = upper(identity + " "@ + stdi);
    contains(blob, "STN"@) || contains(blob, "OBDLINK"@) || contains(blob, "SCANTOOL"@)
        || contains(blob, "STN11"@)
}

pub fn detect_ms_can_hint(identity: &str, stdi: &str) -> (r: bool)
    ensures
        r == ms_can_hint(identity@, stdi@),
{
    let mut blob = concat(identity, " ");
    push_str(&mut blob, stdi);
    let u = upper_of(&chars_of(blob.as_str()));
    contains_chars(&u, &chars_of("STN")) || contains_chars(&u, &chars_of("OBDLINK"))
        || contains_chars(&u, &chars_of("SCANTOOL")) || contains_chars(&u, &chars_of("STN11"))
}

/// Whether an `STDI` reply names STN firmware (an answer other than `?`).
pub open spec fn stdi_answered(stdi: Seq<char>) -> bool {
    stdi.len() > 0 && !contains(stdi, "?"@)
}

/// The capabilities a serial ELM/STN adapter reports at init from its `ATI`,
/// `STDI` and `ATDP` replies.
pub open spec fn elm_caps_spec(
    identity: Seq<char>,
    stdi: Seq<char>,
    protocol: Seq<char>,
    link: LinkKind,
) -> (bool, bool, bool, LinkKind, Seq<char>, Seq<char>) {
    (
        identity.len() > 0,
        contains(upper(identity), "STN"@) || stdi_answered(stdi),
        ms_can_hint(identity, stdi),
        link,
        trim(identity),
        trim(protocol),
    )
}

pub open spec fn caps_tuple(c: AdapterCapabilities) -> (
    bool,
    bool,
    bool,
    LinkKind,
    Seq<char>,
    Seq<char>,
) {
    (c.elm_compatible, c.stn, c.ms_can, c.link, c.identity@, c.protocol@)
}

pub fn elm_capabilities(identity: &str, stdi: &str, protocol: &str, link: LinkKind) -> (r:
    AdapterCapabilities)
    ensures
        caps_tuple(r) == elm_caps_spec(identity@, stdi@, protocol@, link),
{
    let id_up = upper_of(&chars_of(identity));
    let stdi_c = chars_of(stdi);
    let stn = contains_chars(&id_up, &chars_of("STN")) || (stdi_c.len() > 0 && !contains_chars(
        &stdi_c,
        &chars_of("?"),
    ));
    let ms_can = detect_ms_can_hint(identity, stdi);
    AdapterCapabilities {
        elm_compatible: !identity.is_empty(),
        stn,
        ms_can,
        link,
        identity: string_of(&trim_chars(&chars_of(identity))),
        protocol: string_of(&trim_chars(&chars_of(protocol))),
    }
}

/// Init succeeds only when the adapter identified itself.
pub fn identity_check(caps: &AdapterCapabilities, refusal: &str) -> (r: Result<(), Error>)
    ensures
        caps.elm_compatible ==> r is Ok,
        !caps.elm_compatible ==> (r matches Err(Error::AdapterInit(m)) && m@ == refusal@),
{
    if !caps.elm_compatible {
        return Err(Error::AdapterInit(owned(refusal)));
    }
    Ok(())
}

/// `s` with every space removed.
pub open spec fn drop_spaces(s: Seq<char>) -> Seq<char>
    decreases s.len(),
{
    if s.len() == 0 {
        Seq::empty()
    } else if s.last() == ' ' {
        drop_spaces(s.drop_last())
    } else {
        drop_spaces(s.drop_last()).push(s.last())
    }
}

/// Whether a `0100` warm-up reply shows the OBD protocol locked: it holds
/// `4100`, or holds `41` and is at least six bytes long, spaces removed.
pub open spec fn protocol_lock_spec(resp: Seq<char>) -> bool {
    let u = drop_spaces(upper(resp));
    contains(u, "4100"@) || (contains(u, "41"@) && vstd::utf8::encode_utf8(u).len() as usize >= 6)
}

pub fn protocol_locked(resp: &str) -> (r: bool)
    ensures
        r == protocol_lock_spec(resp@),
{
    let up = upper_of(&chars_of(resp));
    let mut u: Vec<char> = Vec::new();
    for i in 0..up.len()
        invariant
            u@ == drop_spaces(up@.subrange(0, i as int)),
    {
        proof {
            assert(up@.subrange(0, i + 1).drop_last() =~= up@.subrange(0, i as int));
        }
        if up[i] != ' ' {
            u.push(up[i]);
        }
    }
    assert(up@.subrange(0, up@.len() as int) =~= up@);
    let text = string_of(&u);
    contains_chars(&u, &chars_of("4100")) || (contains_chars(&u, &chars_of("41"))
        && text.as_str().len() >= 6)
}

/// The capabilities a Bluetooth SPP adapter reports at init from its `ATZ`
/// banner and `ATI`, `STDI`, `ATDP` replies.
pub open spec fn bt_caps_spec(atz: Seq<char>, ati: Seq<char>, stdi: Seq<char>, protocol: Seq<
    char,
>) -> (bool, bool, bool, LinkKind, Seq<char>, Seq<char>) {
    let id0 = identity_text(ati);
    let identity = if id0.len() == 0 || bus_noise(id0) {
        identity_text(atz)
    } else {
        id0
    };
    let iu = upper(identity);
    let stn = contains(iu, "STN"@) || contains(iu, "OBDLINK"@) || contains(iu, "ELM327"@)
        || stdi_answered(stdi);
    let ms_can = stn || contains(iu, "OBDLINK"@) || contains(upper(stdi), "STN"@);
    let compatible = identity.len() > 0 && !bus_noise(identity);
    if !compatible && contains(upper(atz), "ELM"@) {
        (true, stn, ms_can, LinkKind::BluetoothSpp, identity_text(atz), trim(protocol))
    } else {
        (compatible, stn, ms_can, LinkKind::BluetoothSpp, trim(identity), trim(protocol))
    }
}

pub fn bt_capabilities(atz: &str, ati: &str, stdi: &str, protocol: &str) -> (r:
    AdapterCapabilities)
    ensures
        caps_tuple(r) == bt_caps_spec(atz@, ati@, stdi@, protocol@),
{
    let id0 = sanitize_identity(ati);
    let identity = if id0.as_str().is_empty() || is_bus_noise(id0.as_str()) {
        sanitize_identity(atz)
    } else {
        id0
    };
    let iu = upper_of(&chars_of(identity.as_str()));
    let stdi_c = chars_of(stdi);
    let stn = contains_chars(&iu, &chars_of("STN")) || contains_chars(&iu, &chars_of("OBDLINK"))
        || contains_chars(&iu, &chars_of("ELM327")) || (stdi_c.len() > 0 && !contains_chars(
        &stdi_c,
        &chars_of("?"),
    ));
    let ms_can = stn || contains_chars(&iu, &chars_of("OBDLINK")) || contains_chars(
        &upper_of(&stdi_c),
        &chars_of("STN"),
    );
    let mut caps = AdapterCapabilities {
        elm_compatible: !identity.as_str().is_empty() && !is_bus_noise(identity.as_str()),
        stn,
        ms_can,
        link: LinkKind::BluetoothSpp,
        identity: string_of(&trim_chars(&chars_of(identity.as_str()))),
        protocol: string_of(&trim_chars(&chars_of(protocol))),
    };
    if !caps.elm_compatible {
        if contains_chars(&upper_of(&chars_of(atz)), &chars_of("ELM")) {
            caps.elm_compatible = true;
            caps.identity = sanitize_identity(atz);
        }
    }
    caps
}

/// The six address bytes of a MAC in BlueZ order (reversed).
pub open spec fn bdaddr_spec(mac: Seq<char>) -> Option<Seq<u8>> {
    match mac_spec(mac) {
        Some(_) => Some(hex_pairs(upper(keep_hex(mac))).reverse()),
        None => None,
    }
}

/// Parse `AA:BB:CC:DD:EE:FF` into BlueZ little-endian byte order for `bdaddr_t`.
pub fn parse_bdaddr(mac: &str) -> (r: Result<[u8; 6], Error>)
    ensures
        match bdaddr_spec(mac@) {
            Some(b) => r matches Ok(a) && a@ == b,
            None => r matches Err(Error::AdapterInit(m)) && m@ == "invalid Bluetooth MAC: "@
                + mac@,
        },
{
    let norm = match normalize_bt_mac(mac) {
        Some(n) => n,
        None => return Err(Error::AdapterInit(concat("invalid Bluetooth MAC: ", mac))),
    };
    let c = chars_of(norm.as_str());
    let ghost h = upper(keep_hex(mac@));
    proof {
        lemma_keep_hex_all_hex(mac@);
        assert(c@ == mac_text(h));
        assert forall|i: int| 0 <= i < h.len() implies is_hex_digit(#[trigger] h[i]) by {
            assert(h[i] == crate::text::to_upper(keep_hex(mac@)[i]));
        }
    }
    let mut parts: [u8; 6] = [0u8; 6];
    let mut i: usize = 0;
    while i < 6
        invariant
            i <= 6,
            c@ == mac_text(h),
            h.len() == 12,
            forall|k: int| 0 <= k < 12 ==> is_hex_digit(#[trigger] h[k]),
            forall|k: int| 0 <= k < i ==> parts@[5 - k] == hex_pairs(h)[k],
        decreases 6 - i,
    {
        let hi: u8 = hex_digit_value(c[3 * i]);
        let lo: u8 = hex_digit_value(c[3 * i + 1]);
        parts[5 - i] = hi * 16 + lo;
        i += 1;
    }
    assert(parts@ =~= hex_pairs(h).reverse());
    Ok(parts)
}

} // verus!

verus! {

/// Serial port configuration for ELM/STN adapters.
#[derive(Debug, Clone)]
pub struct ElmConfig {
    pub path: String,
    pub baud: u32,
    /// Read timeout, in milliseconds.
    pub timeout_ms: u64,
    /// Force bus tag for captures when only one bus is visible.
    pub default_bus: crate::bus::BusTag,
    /// Host link the port belongs to.
    pub link: LinkKind,
}

impl Default for ElmConfig {
    fn default() -> (r: Self)
        ensures
            r.path@.len() == 0 && r.baud == 38400 && r.timeout_ms == 2000 && r.default_bus
                == crate::bus::BusTag::Hs && r.link == LinkKind::Other,
    {
        ElmConfig {
            path: String::new(),
            baud: 38400,
            timeout_ms: 2000,
            default_bus: crate::bus::BusTag::Hs,
            link: LinkKind::Other,
        }
    }
}

/// The canonical address and display name (`bt://MAC`) of a Bluetooth SPP
/// adapter, or the error for an invalid MAC.
pub fn bt_spp_address(mac: &str) -> (r: Result<(String, String), Error>)
    ensures
        match mac_spec(mac@) {
            Some(m) => r matches Ok(x) && x.0@ == m && x.1@ == "bt://"@ + m,
            None => r matches Err(Error::AdapterInit(e)) && e@ == "invalid Bluetooth MAC: "@
                + mac@,
        },
{
    match normalize_bt_mac(mac) {
        Some(m) => {
            let name = concat("bt://", m.as_str());
            Ok((m, name))
        },
        None => Err(Error::AdapterInit(concat("invalid Bluetooth MAC: ", mac))),
    }
}

} // verus!

verus! {

/// The line sent to the adapter for a command: the command trimmed, ended by a
/// carriage return. An empty command is refused.
pub fn command_line(command: &str) -> (r: Result<String, Error>)
    ensures
        trim(command@).len() == 0 ==> (r matches Err(Error::Protocol(m)) && m@ == "empty command"@),
        trim(command@).len() > 0 ==> (r matches Ok(l) && l@ == trim(command@).push('\r')),
{
    let mut t = trim_chars(&chars_of(command));
    if t.len() == 0 {
        return Err(Error::Protocol(owned("empty command")));
    }
    t.push('\r');
    Ok(string_of(&t))
}

/// What happened on one read of the adapter while waiting for its prompt.
#[derive(Debug, Clone, Copy, PartialEq, Eq, Structural)]
pub enum ReadEvent {
    /// The overall reply timeout has passed.
    Expired,
    /// The read returned no byte.
    Nothing,
    /// The port's own read timeout fired.
    Quiet,
    /// One byte arrived.
    Byte(u8),
}

/// What to do after a read.
#[derive(Debug, Clone, Copy, PartialEq, Eq, Structural)]
pub enum ReadAction {
    /// Read again.
    Continue,
    /// The reply is complete: clean what was collected.
    Finish,
    /// Nothing arrived in time.
    TimedOut,
}

/// One step of collecting an adapter reply up to its `>` prompt: bytes other
/// than NUL are collected; the prompt ends the reply; when time runs out or
/// the port goes quiet, what was collected is the reply, and nothing
/// collected is a timeout (a quiet port is waited on while nothing came).
pub fn prompt_read_step(buf: &mut Vec<u8>, ev: ReadEvent) -> (r: ReadAction)
    ensures
        match ev {
            ReadEvent::Byte(b) => if b == 0x3Eu8 {
                r == ReadAction::Finish && final(buf)@ == old(buf)@
            } else if b == 0u8 {
                r == ReadAction::Continue && final(buf)@ == old(buf)@
            } else {
                r == ReadAction::Continue && final(buf)@ == old(buf)@.push(b)
            },
            ReadEvent::Nothing => r == ReadAction::Continue && final(buf)@ == old(buf)@,
            ReadEvent::Quiet => final(buf)@ == old(buf)@ && r == if old(buf)@.len() == 0 {
                ReadAction::Continue
            } else {
                ReadAction::Finish
            },
            ReadEvent::Expired => final(buf)@ == old(buf)@ && r == if old(buf)@.len() == 0 {
                ReadAction::TimedOut
            } else {
                ReadAction::Finish
            },
        },
{
    match ev {
        ReadEvent::Byte(b) => {
            if b == 0x3E {
                ReadAction::Finish
            } else if b == 0 {
                ReadAction::Continue
            } else {
                buf.push(b);
                ReadAction::Continue
            }
        },
        ReadEvent::Nothing => ReadAction::Continue,
        ReadEvent::Quiet => {
            if buf.len() == 0 {
                ReadAction::Continue
            } else {
                ReadAction::Finish
            }
        },
        ReadEvent::Expired => {
            if buf.len() == 0 {
                ReadAction::TimedOut
            } else {
                ReadAction::Finish
            }
        },
    }
}

/// What the Bluetooth init does after a `0100` warm-up reply.
#[derive(Debug, Clone, Copy, PartialEq, Eq, Structural)]
pub enum WarmUpAction {
    /// The protocol is locked: go on with identification.
    Locked,
    /// Try `0100` again.
    Retry,
    /// Force CAN 11/500 (`ATSP6`), then try again.
    SelectCanThenRetry,
    /// Three attempts failed: go on without a lock.
    GiveUp,
}

/// The decision after warm-up attempt `attempt` (counted from 1) got `reply`.
pub fn warm_up_step(attempt: u8, reply: &str) -> (r: WarmUpAction)
    ensures
        r == if protocol_lock_spec(reply@) {
            WarmUpAction::Locked
        } else if attempt >= 3 {
            WarmUpAction::GiveUp
        } else if attempt == 2 {
            WarmUpAction::SelectCanThenRetry
        } else {
            WarmUpAction::Retry
        },
{
    if protocol_locked(reply) {
        WarmUpAction::Locked
    } else if attempt >= 3 {
        WarmUpAction::GiveUp
    } else if attempt == 2 {
        WarmUpAction::SelectCanThenRetry
    } else {
        WarmUpAction::Retry
    }
}

} // verus!

verus! {

/// How long a Bluetooth socket connect may wait: the read timeout, and at
/// least eight seconds.
pub fn connect_wait_ms(timeout_ms: u64) -> (r: u64)
    ensures
        r == if timeout_ms < 8000 {
            8000
        } else {
            timeout_ms
        },
{
    if timeout_ms < 8000 {
        8000
    } else {
        timeout_ms
    }
}

/// The state of a pending Bluetooth socket connect after one poll.
#[derive(Debug, Clone, Copy, PartialEq, Eq, Structural)]
pub enum ConnectWait {
    /// The socket is connected.
    Connected,
    /// The connect failed with this OS error code.
    Failed(i32),
    /// Poll again.
    Waiting,
    /// The wait is over without a connection.
    TimedOut,
}

/// One step of waiting for a non-blocking connect: `so_error` is the socket's
/// pending error when the poll reported it writable (and it could be read);
/// a zero error is a connection, another error a failure; otherwise the wait
/// goes on until the deadline has passed.
pub fn connect_wait_step(so_error: Option<i32>, past_deadline: bool) -> (r: ConnectWait)
    ensures
        r == match so_error {
            Some(e) => if e == 0 {
                ConnectWait::Connected
            } else {
                ConnectWait::Failed(e)
            },
            None => if past_deadline {
                ConnectWait::TimedOut
            } else {
                ConnectWait::Waiting
            },
        },
{
    match so_error {
        Some(e) => {
            if e == 0 {
                ConnectWait::Connected
            } else {
                ConnectWait::Failed(e)
            }
        },
        None => {
            if past_deadline {
                ConnectWait::TimedOut
            } else {
                ConnectWait::Waiting
            }
        },
    }
}

} // verus!

verus! {

/// No line break and no carriage return in the text.
pub open spec fn one_line(k: Seq<char>) -> bool {
    forall|m: int| 0 <= m < k.len() ==> k[m] != '\n' && k[m] != '\r'
}

proof fn lemma_next_newline_shift(p: Seq<char>, r: Seq<char>, j: int)
    requires
        0 <= j <= r.len(),
    ensures
        crate::text::next_newline(p + r, p.len() + j) == p.len() + crate::text::next_newline(r, j),
    decreases r.len() - j,
{
    if j < r.len() {
        assert((p + r)[p.len() + j] == r[j]);
        if r[j] != '\n' {
            lemma_next_newline_shift(p, r, j + 1);
        }
    }
}

proof fn lemma_lines_from_shift(p: Seq<char>, r: Seq<char>, j: int)
    requires
        0 <= j <= r.len(),
    ensures
        crate::text::lines_from(p + r, p.len() + j) == crate::text::lines_from(r, j),
    decreases r.len() - j,
{
    if j < r.len() {
        let x = p + r;
        lemma_next_newline_shift(p, r, j);
        crate::text::lemma_next_newline_bounds(r, j);
        let n = crate::text::next_newline(r, j);
        if n >= r.len() {
            assert(x.subrange(p.len() + j, x.len() as int) =~= r.subrange(j, r.len() as int));
        } else {
            assert(x.subrange(p.len() + j, p.len() + n) =~= r.subrange(j, n));
            lemma_lines_from_shift(p, r, n + 1);
            assert(p.len() + n + 1 == p.len() + (n + 1));
        }
    }
}

proof fn lemma_next_newline_piece(k: Seq<char>, rest: Seq<char>, j: int)
    requires
        0 <= j <= k.len(),
        one_line(k),
    ensures
        crate::text::next_newline(k + seq!['\n'] + rest, j) == k.len(),
    decreases k.len() - j,
{
    let x = k + seq!['\n'] + rest;
    if j < k.len() {
        assert(x[j] == k[j]);
        lemma_next_newline_piece(k, rest, j + 1);
    } else {
        assert(x[j] == '\n');
    }
}

proof fn lemma_join_front(k: Seq<char>, rest: Seq<Seq<char>>, sep: Seq<char>)
    requires
        rest.len() > 0,
    ensures
        join_with(seq![k] + rest, sep) == k + sep + join_with(rest, sep),
    decreases rest.len(),
{
    let ks = seq![k] + rest;
    if rest.len() == 1 {
        assert(ks.drop_last() =~= seq![k]);
        assert(ks.last() == rest[0]);
        assert(join_with(seq![k], sep) == k);
        assert(join_with(rest, sep) == rest[0]);
        assert(join_with(ks, sep) == join_with(ks.drop_last(), sep) + sep + ks.last());
    } else {
        assert(join_with(rest, sep) == join_with(rest.drop_last(), sep) + sep + rest.last());
        assert(join_with(ks, sep) == join_with(ks.drop_last(), sep) + sep + ks.last());
        lemma_join_front(k, rest.drop_last(), sep);
        assert(ks.drop_last() =~= seq![k] + rest.drop_last());
        assert(ks.last() == rest.last());
        assert(k + sep + join_with(rest.drop_last(), sep) + sep + rest.last() =~= k + sep + (
        join_with(rest.drop_last(), sep) + sep + rest.last()));
    }
}

/// Lines joined with `'\n'` split back into the same lines, when each is
/// non-empty and on one line.
pub proof fn lemma_lines_of_joined(ks: Seq<Seq<char>>)
    requires
        forall|i: int| 0 <= i < ks.len() ==> (#[trigger] ks[i]).len() > 0 && one_line(ks[i]),
    ensures
        lines(join_with(ks, seq!['\n'])) == ks,
    decreases ks.len(),
{
    if ks.len() == 1 {
        let k = ks[0];
        assert(one_line(k));
        lemma_next_newline_piece(k, Seq::empty(), 0);
        assert(k + seq!['\n'] + Seq::<char>::empty() =~= k.push('\n'));
        assert forall|j: int| 0 <= j <= k.len() implies crate::text::next_newline(k, j) == k.len() by {
            lemma_next_newline_one(k, j);
        }
        assert(k.subrange(0, k.len() as int) =~= k);
        assert(lines(k) =~= seq![k]);
    } else if ks.len() > 1 {
        let k = ks[0];
        let rest = ks.drop_first();
        assert(ks =~= seq![k] + rest);
        lemma_join_front(k, rest, seq!['\n']);
        let jr = join_with(rest, seq!['\n']);
        let x = k + seq!['\n'] + jr;
        assert(one_line(k));
        lemma_next_newline_piece(k, jr, 0);
        assert(x.subrange(0, k.len() as int) =~= k);
        assert(k.last() != '\r');
        assert(crate::text::strip_cr(k) == k);
        assert(x =~= (k + seq!['\n']) + jr);
        assert forall|i: int| 0 <= i < rest.len() implies (#[trigger] rest[i]).len() > 0 && one_line(
            rest[i],
        ) by {
            assert(rest[i] == ks[i + 1]);
        }
        lemma_lines_of_joined(rest);
        lemma_lines_from_shift(k + seq!['\n'], jr, 0);
        assert(lines(x) =~= seq![k] + rest);
    }
}

proof fn lemma_next_newline_one(k: Seq<char>, j: int)
    requires
        0 <= j <= k.len(),
        one_line(k),
    ensures
        crate::text::next_newline(k, j) == k.len(),
    decreases k.len() - j,
{
    if j < k.len() {
        lemma_next_newline_one(k, j + 1);
    }
}

} // verus!

verus! {

proof fn lemma_drop_cr_filter(s: Seq<char>, f: spec_fn(char) -> bool)
    requires
        forall|c: char| #[trigger] f(c) == (c != '\r'),
    ensures
        drop_cr(s) == s.filter(f),
        one_line_cr_free(drop_cr(s)),
    decreases s.len(),
{
    reveal(Seq::filter);
    if s.len() > 0 {
        lemma_drop_cr_filter(s.drop_last(), f);
        assert(f(s.last()) == (s.last() != '\r'));
        let d = drop_cr(s.drop_last());
        if s.last() != '\r' {
            assert forall|m: int| 0 <= m < d.push(s.last()).len() implies d.push(s.last())[m] != '\r' by {
                if m < d.len() {
                    assert(d.push(s.last())[m] == d[m]);
                }
            }
        }
    }
}

/// No carriage return in the text.
pub open spec fn one_line_cr_free(x: Seq<char>) -> bool {
    forall|m: int| 0 <= m < x.len() ==> x[m] != '\r'
}

proof fn lemma_before_newline(x: Seq<char>, i: int, m: int)
    requires
        0 <= i <= m < crate::text::next_newline(x, i),
        i <= x.len(),
    ensures
        m < x.len() && x[m] != '\n',
    decreases x.len() - i,
{
    crate::text::lemma_next_newline_bounds(x, i);
    if i < x.len() && x[i] != '\n' && m > i {
        lemma_before_newline(x, i + 1, m);
    }
}

proof fn lemma_line_pieces(x: Seq<char>, i: int)
    requires
        0 <= i <= x.len(),
        one_line_cr_free(x),
    ensures
        forall|p: int| 0 <= p < crate::text::lines_from(x, i).len() ==> one_line(
            #[trigger] crate::text::lines_from(x, i)[p],
        ),
    decreases x.len() - i,
{
    if i < x.len() {
        crate::text::lemma_next_newline_bounds(x, i);
        let j = crate::text::next_newline(x, i);
        let piece = x.subrange(i, j);
        assert forall|m: int| 0 <= m < piece.len() implies piece[m] != '\n' && piece[m] != '\r' by {
            lemma_before_newline(x, i, i + m);
        }
        if j < x.len() {
            lemma_line_pieces(x, j + 1);
            let ls = crate::text::lines_from(x, i);
            let st = crate::text::strip_cr(piece);
            assert(one_line(st)) by {
                assert forall|m: int| 0 <= m < st.len() implies st[m] != '\n' && st[m] != '\r' by {
                    assert(st[m] == piece[m]);
                }
            }
            assert forall|p: int| 0 <= p < ls.len() implies one_line(#[trigger] ls[p]) by {
                if p > 0 {
                    assert(ls[p] == crate::text::lines_from(x, j + 1)[p - 1]);
                }
            }
        } else {
            assert(x.subrange(i, x.len() as int) == piece);
        }
    }
}

proof fn lemma_trim_one_line(l: Seq<char>)
    requires
        one_line(l),
    ensures
        one_line(trim(l)),
{
    crate::text::lemma_skip_white_bounds(l, 0);
    crate::text::lemma_back_white_bounds(l, l.len() as int);
    let t = trim(l);
    assert forall|m: int| 0 <= m < t.len() implies t[m] != '\n' && t[m] != '\r' by {
        let lo = crate::text::skip_white(l, 0);
        assert(t[m] == l[lo + m]);
    }
}

proof fn lemma_kept_filter(
    ls: Seq<Seq<char>>,
    lf: LineFilter,
    t: spec_fn(Seq<char>) -> Seq<char>,
    f: spec_fn(Seq<char>) -> bool,
)
    requires
        forall|l: Seq<char>| #[trigger] t(l) == trim(l),
        forall|l: Seq<char>| #[trigger] f(l) == line_kept(lf, l),
    ensures
        kept_lines(ls, lf) == ls.map_values(t).filter(f),
    decreases ls.len(),
{
    reveal(Seq::filter);
    if ls.len() > 0 {
        lemma_kept_filter(ls.drop_last(), lf, t, f);
        let m = ls.map_values(t);
        assert(m.drop_last() =~= ls.drop_last().map_values(t));
        assert(m.last() == trim(ls.last()));
        assert(f(m.last()) == line_kept(lf, trim(ls.last())));
    }
}

/// A serial reply is cleaned line by line: the cleaned text, split at line
/// breaks, is exactly the reply's lines (carriage returns removed), each
/// trimmed, without the empty ones and `SEARCHING...`, in order; so no line
/// is lost and no two lines run together.
pub proof fn lemma_clean_response_lines(s: Seq<char>)
    ensures
        lines(elm_clean(s)) == lines(s.filter(|c: char| c != '\r')).map_values(|l: Seq<char>| trim(l)).filter(
            |l: Seq<char>| l.len() > 0 && l != "SEARCHING..."@,
        ),
{
    let f1 = |c: char| c != '\r';
    let t = |l: Seq<char>| trim(l);
    let f2 = |l: Seq<char>| l.len() > 0 && l != "SEARCHING..."@;
    lemma_drop_cr_filter(s, f1);
    let x = drop_cr(s);
    let ls = lines(x);
    lemma_kept_filter(ls, LineFilter::Serial, t, f2);
    let k = kept_lines(ls, LineFilter::Serial);
    lemma_line_pieces(x, 0);
    lemma_kept_shape(ls, LineFilter::Serial);
    lemma_lines_of_joined(k);
    reveal_strlit("\n");
    assert("\n"@ =~= seq!['\n']);
}

proof fn lemma_kept_shape(ls: Seq<Seq<char>>, lf: LineFilter)
    requires
        forall|p: int| 0 <= p < ls.len() ==> one_line(#[trigger] ls[p]),
    ensures
        forall|i: int|
            0 <= i < kept_lines(ls, lf).len() ==> (#[trigger] kept_lines(
                ls,
                lf,
            )[i]).len() > 0 && one_line(kept_lines(ls, lf)[i]),
    decreases ls.len(),
{
    if ls.len() > 0 {
        assert forall|p: int| 0 <= p < ls.drop_last().len() implies one_line(
            #[trigger] ls.drop_last()[p],
        ) by {
            assert(ls.drop_last()[p] == ls[p]);
        }
        lemma_kept_shape(ls.drop_last(), lf);
        assert(one_line(ls[ls.len() - 1]));
        lemma_trim_one_line(ls.last());
        let kd = kept_lines(ls.drop_last(), lf);
        let k = kept_lines(ls, lf);
        assert forall|i: int| 0 <= i < k.len() implies (#[trigger] k[i]).len() > 0 && one_line(k[i]) by {
            if i < kd.len() {
                assert(k[i] == kd[i]);
            }
        }
    }
}

/// A Bluetooth reply is cleaned line by line in the same way: split at line
/// breaks, the cleaned text is exactly the reply's lines (carriage returns
/// removed), each trimmed, without the empty ones and the bus-noise ones, in
/// order.
pub proof fn lemma_clean_bt_response_lines(s: Seq<char>)
    ensures
        lines(bt_clean(s)) == lines(s.filter(|c: char| c != '\r')).map_values(|l: Seq<char>| trim(l)).filter(
            |l: Seq<char>| l.len() > 0 && !bus_noise(l),
        ),
{
    let f1 = |c: char| c != '\r';
    let t = |l: Seq<char>| trim(l);
    let f2 = |l: Seq<char>| l.len() > 0 && !bus_noise(l);
    lemma_drop_cr_filter(s, f1);
    let x = drop_cr(s);
    let ls = lines(x);
    lemma_kept_filter(ls, LineFilter::Bluetooth, t, f2);
    let k = kept_lines(ls, LineFilter::Bluetooth);
    lemma_line_pieces(x, 0);
    lemma_kept_shape(ls, LineFilter::Bluetooth);
    lemma_lines_of_joined(k);
    reveal_strlit("\n");
    assert("\n"@ =~= seq!['\n']);
}

} // verus!
