//! Choosing among USB and Bluetooth SPP endpoints: discovery results, the
//! order of connection attempts, and how failures are reported.
use crate::bus::{link_kind_text, BusTag, LinkKind, LinkPrefer};
use crate::error::{error_text, Error};
use crate::order::{key_views, sort_by_keys, stable_sorted, SortKey};
use crate::text::{
    chars_of, concat, contains, contains_chars, cviews, decimal_digits, is_white, join_chars, join_with, lines,
    lines_of, lower, lower_of, owned, push_char, push_decimal_u32, push_str, starts_with, starts_with_chars,
    string_of, sviews, trim, trim_chars, white,
};
use crate::transport::link::{
    endpoint_views, mac_spec, normalize_bt_mac, path_kind, AdapterEndpoint, EndpointView,
};
use vstd::prelude::*;

verus! {

/// Options for opening a live ELM/STN adapter over USB or Bluetooth SPP.
#[derive(Debug, Clone)]
pub struct ConnectOptions {
    /// Explicit device path. When set, discovery is skipped.
    pub path: Option<String>,
    /// Fixed baud. When `None`, try link-typical bauds.
    pub baud: Option<u32>,
    /// Auto-select preference among discovered endpoints.
    pub prefer: LinkPrefer,
    /// Bluetooth MAC: connect over a native RFCOMM socket first.
    pub bt_mac: Option<String>,
    /// RFCOMM device index (`/dev/rfcomm{N}`).
    pub rfcomm_index: u8,
    /// RFCOMM channel (usually 1 for ELM SPP).
    pub rfcomm_channel: u8,
    /// Per-transaction serial timeout, in milliseconds.
    pub timeout_ms: u64,
    /// Default vehicle bus tag for captures.
    pub default_bus: BusTag,
    /// When true, do not run ELM init after open (tests only).
    pub skip_init: bool,
}

impl Default for ConnectOptions {
    fn default() -> (r: Self)
        ensures
            r.path is None && r.baud is None && r.prefer == LinkPrefer::Auto && r.bt_mac is None
                && r.rfcomm_index == 0 && r.rfcomm_channel == 1 && r.timeout_ms == 2500
                && r.default_bus == BusTag::Hs && !r.skip_init,
    {
        ConnectOptions {
            path: None,
            baud: None,
            prefer: LinkPrefer::Auto,
            bt_mac: None,
            rfcomm_index: 0,
            rfcomm_channel: 1,
            timeout_ms: 2500,
            default_bus: BusTag::Hs,
            skip_init: false,
        }
    }
}

/// Rank of an endpoint's link under a preference (lower is tried first).
pub open spec fn endpoint_rank(prefer: LinkPrefer, kind: LinkKind) -> u8 {
    match kind {
        LinkKind::Other => 3,
        LinkKind::UsbSerial => match prefer {
            LinkPrefer::Bluetooth => 2,
            _ => 0,
        },
        LinkKind::BluetoothSpp => match prefer {
            LinkPrefer::Bluetooth => 0,
            LinkPrefer::Auto => 1,
            LinkPrefer::Usb => 2,
        },
    }
}

pub fn rank(prefer: LinkPrefer, kind: LinkKind) -> (r: u8)
    ensures
        r == endpoint_rank(prefer, kind),
{
    match kind {
        LinkKind::Other => 3,
        LinkKind::UsbSerial => match prefer {
            LinkPrefer::Bluetooth => 2,
            _ => 0,
        },
        LinkKind::BluetoothSpp => match prefer {
            LinkPrefer::Bluetooth => 0,
            LinkPrefer::Auto => 1,
            LinkPrefer::Usb => 2,
        },
    }
}

/// Endpoints are ordered by rank, then by path.
pub open spec fn endpoint_keys(prefer: LinkPrefer, v: Seq<AdapterEndpoint>) -> Seq<SortKey> {
    v.map_values(|e: AdapterEndpoint| (endpoint_rank(prefer, e.kind), e.path@))
}

/// Sorts endpoints by rank under `prefer`, then by path; the sort is stable.
pub fn sort_endpoints(list: &mut Vec<AdapterEndpoint>, prefer: LinkPrefer)
    ensures
        stable_sorted(old(list)@, endpoint_keys(prefer, old(list)@), final(list)@),
{
    let mut v: Vec<AdapterEndpoint> = Vec::new();
    std::mem::swap(&mut v, list);
    let mut keys: Vec<(u8, Vec<char>)> = Vec::new();
    let mut i: usize = 0;
    while i < v.len()
        invariant
            i <= v@.len(),
            keys@.len() == i,
            forall|k: int|
                0 <= k < i ==> #[trigger] key_views(keys@)[k] == endpoint_keys(prefer, v@)[k],
        decreases v@.len() - i,
    {
        let ghost before = key_views(keys@);
        keys.push((rank(prefer, v[i].kind), chars_of(v[i].path.as_str())));
        proof {
            assert(key_views(keys@) =~= before.push(endpoint_keys(prefer, v@)[i as int]));
        }
        i += 1;
    }
    assert(key_views(keys@) =~= endpoint_keys(prefer, v@));
    *list = sort_by_keys(v, keys);
}

/// Typical baud rates to try: the fixed one, or the link's defaults.
pub fn baud_list(opts: &ConnectOptions, kind: LinkKind) -> (r: Vec<u32>)
    ensures
        r@ == match opts.baud {
            Some(b) => seq![b],
            None => seq![38400u32, 115200u32, 9600u32],
        },
{
    match opts.baud {
        Some(b) => {
            let r = vec![b];
            assert(r@ =~= seq![b]);
            r
        },
        None => kind.default_bauds(),
    }
}

/// Whether a discovered endpoint is worth offering: any USB or Bluetooth
/// endpoint, and other ports whose names mention OBD or serial.
pub open spec fn candidate(e: EndpointView) -> bool {
    match e.kind {
        LinkKind::UsbSerial | LinkKind::BluetoothSpp => true,
        LinkKind::Other => contains(lower(e.path), "obd"@) || contains(lower(e.path), "serial"@),
    }
}

pub fn is_candidate(ep: &AdapterEndpoint) -> (r: bool)
    ensures
        r == candidate(ep@),
{
    match ep.kind {
        LinkKind::UsbSerial | LinkKind::BluetoothSpp => true,
        LinkKind::Other => {
            let n = lower_of(&chars_of(ep.path.as_str()));
            contains_chars(&n, &chars_of("obd")) || contains_chars(&n, &chars_of("serial"))
        },
    }
}

/// Whether some endpoint already has the given path.
pub open spec fn has_path(v: Seq<EndpointView>, p: Seq<char>) -> bool {
    exists|i: int| 0 <= i < v.len() && #[trigger] v[i].path == p
}

/// `v` with `e` added unless an endpoint with the same path is present.
pub open spec fn with_unique(v: Seq<EndpointView>, e: EndpointView) -> Seq<EndpointView> {
    if has_path(v, e.path) {
        v
    } else {
        v.push(e)
    }
}

/// Adds an endpoint unless one with the same path is present.
pub fn push_unique(out: &mut Vec<AdapterEndpoint>, ep: AdapterEndpoint)
    ensures
        endpoint_views(final(out)@) == with_unique(endpoint_views(old(out)@), ep@),
{
    let p = chars_of(ep.path.as_str());
    let mut i: usize = 0;
    while i < out.len()
        invariant
            i <= out@.len(),
            p@ == ep.path@,
            forall|k: int| 0 <= k < i ==> out@[k].path@ != ep.path@,
        decreases out@.len() - i,
    {
        if crate::text::chars_eq(&chars_of(out[i].path.as_str()), &p) {
            assert(endpoint_views(out@)[i as int].path == ep.path@);
            return;
        }
        i += 1;
    }
    let ghost before = endpoint_views(out@);
    proof {
        assert forall|k: int| 0 <= k < before.len() implies before[k].path != ep.path@ by {
            assert(before[k] == out@[k]@);
        }
    }
    out.push(ep);
    assert(endpoint_views(out@) =~= before.push(ep@));
}

/// Decimal digits of a byte, as `{}` formats it.
pub open spec fn decimal(n: u8) -> Seq<char> {
    if n < 10 {
        seq![('0' as int + n) as char]
    } else if n < 100 {
        seq![('0' as int + n / 10) as char, ('0' as int + n % 10) as char]
    } else {
        seq![
            ('0' as int + n / 100) as char,
            ('0' as int + (n / 10) % 10) as char,
            ('0' as int + n % 10) as char,
        ]
    }
}

pub fn decimal_string(n: u8) -> (r: String)
    ensures
        r@ == decimal(n),
{
    let mut r = String::new();
    if n < 10 {
        push_char(&mut r, (48 + n) as char);
    } else if n < 100 {
        push_char(&mut r, (48 + n / 10) as char);
        push_char(&mut r, (48 + n % 10) as char);
    } else {
        push_char(&mut r, (48 + n / 100) as char);
        push_char(&mut r, (48 + (n / 10) % 10) as char);
        push_char(&mut r, (48 + n % 10) as char);
    }
    r
}

/// The device node of an RFCOMM binding.
pub fn rfcomm_path(index: u8) -> (r: String)
    ensures
        r@ == "/dev/rfcomm"@ + decimal(index),
{
    let d = decimal_string(index);
    concat("/dev/rfcomm", d.as_str())
}

/// A paired Bluetooth device that looks like an OBD adapter.
#[derive(Debug, Clone)]
pub struct PairedDevice {
    pub mac: String,
    pub name: String,
}

/// Names of paired devices that look like OBD adapters (not mice or keyboards).
pub open spec fn obd_like_name(n: Seq<char>) -> bool {
    let l = lower(n);
    contains(l, "obd"@) || contains(l, "elm"@) || contains(l, "vgate"@) || contains(
        l,
        "obdlink"@,
    ) || contains(l, "veepen"@) || contains(l, "carista"@) || contains(l, "konnwei"@)
        || contains(l, "vlinker"@) || contains(l, "bies"@) || contains(l, "obdii"@) || contains(
        l,
        "obd2"@,
    )
}

/// Position of the first whitespace character of `s` at or after `i`, or its length.
pub open spec fn first_white_from(s: Seq<char>, i: int) -> int
    decreases s.len() - i,
{
    if i < 0 || i >= s.len() {
        s.len() as int
    } else if is_white(s[i]) {
        i
    } else {
        first_white_from(s, i + 1)
    }
}

/// One line of `bluetoothctl devices` output, `Device <MAC> <name>`: the MAC
/// and the name when the MAC is valid and the name looks like an OBD adapter.
pub open spec fn paired_line(l: Seq<char>) -> Option<(Seq<char>, Seq<char>)> {
    let t = trim(l);
    let rest = if starts_with(t, "Device "@) {
        t.subrange(7, t.len() as int)
    } else {
        t
    };
    let w = first_white_from(rest, 0);
    let mac_raw = rest.subrange(0, w);
    let name = if w < rest.len() {
        trim(rest.subrange(w + 1, rest.len() as int))
    } else {
        Seq::empty()
    };
    match mac_spec(mac_raw) {
        Some(mac) => if obd_like_name(name) {
            Some((mac, name))
        } else {
            None
        },
        None => None,
    }
}

/// The OBD-like paired devices of a `bluetoothctl` listing, in order.
pub open spec fn paired_devices_spec(ls: Seq<Seq<char>>) -> Seq<(Seq<char>, Seq<char>)>
    decreases ls.len(),
{
    if ls.len() == 0 {
        Seq::empty()
    } else {
        match paired_line(ls.last()) {
            Some(d) => paired_devices_spec(ls.drop_last()).push(d),
            None => paired_devices_spec(ls.drop_last()),
        }
    }
}

pub open spec fn paired_views(v: Seq<PairedDevice>) -> Seq<(Seq<char>, Seq<char>)> {
    v.map_values(|d: PairedDevice| (d.mac@, d.name@))
}

fn obd_like(n: &Vec<char>) -> (r: bool)
    ensures
        r == obd_like_name(n@),
{
    let l = lower_of(n);
    contains_chars(&l, &chars_of("obd")) || contains_chars(&l, &chars_of("elm")) || contains_chars(
        &l,
        &chars_of("vgate"),
    ) || contains_chars(&l, &chars_of("obdlink")) || contains_chars(&l, &chars_of("veepen"))
        || contains_chars(&l, &chars_of("carista")) || contains_chars(&l, &chars_of("konnwei"))
        || contains_chars(&l, &chars_of("vlinker")) || contains_chars(&l, &chars_of("bies"))
        || contains_chars(&l, &chars_of("obdii")) || contains_chars(&l, &chars_of("obd2"))
}

fn slice_chars(v: &Vec<char>, from: usize, to: usize) -> (r: Vec<char>)
    requires
        from <= to <= v@.len(),
    ensures
        r@ == v@.subrange(from as int, to as int),
{
    let mut r: Vec<char> = Vec::new();
    let mut k: usize = from;
    while k < to
        invariant
            from <= k <= to <= v@.len(),
            r@ == v@.subrange(from as int, k as int),
        decreases to - k,
    {
        r.push(v[k]);
        k += 1;
        assert(r@ =~= v@.subrange(from as int, k as int));
    }
    r
}

fn parse_paired_line(l: &Vec<char>) -> (r: Option<PairedDevice>)
    ensures
        match paired_line(l@) {
            Some(d) => r matches Some(x) && x.mac@ == d.0 && x.name@ == d.1,
            None => r is None,
        },
{
    let t = trim_chars(l);
    proof {
        reveal_strlit("Device ");
    }
    let rest = if starts_with_chars(&t, &chars_of("Device ")) {
        slice_chars(&t, 7, t.len())
    } else {
        t
    };
    let mut w: usize = 0;
    while w < rest.len() && !white(rest[w])
        invariant
            w <= rest@.len(),
            first_white_from(rest@, 0) == first_white_from(rest@, w as int),
        decreases rest@.len() - w,
    {
        w += 1;
    }
    let mac_raw = string_of(&slice_chars(&rest, 0, w));
    let name = if w < rest.len() {
        trim_chars(&slice_chars(&rest, w + 1, rest.len()))
    } else {
        Vec::new()
    };
    match normalize_bt_mac(mac_raw.as_str()) {
        Some(mac) => {
            if obd_like(&name) {
                Some(PairedDevice { mac, name: string_of(&name) })
            } else {
                None
            }
        },
        None => None,
    }
}

/// The OBD-like devices of a `bluetoothctl devices` listing.
pub fn parse_paired_devices(text: &str) -> (r: Vec<PairedDevice>)
    ensures
        paired_views(r@) == paired_devices_spec(lines(text@)),
{
    let ls = lines_of(&chars_of(text));
    let mut out: Vec<PairedDevice> = Vec::new();
    let mut i: usize = 0;
    while i < ls.len()
        invariant
            i <= ls@.len(),
            paired_views(out@) == paired_devices_spec(cviews(ls@).subrange(0, i as int)),
        decreases ls@.len() - i,
    {
        let ghost before = paired_views(out@);
        proof {
            let pre = cviews(ls@).subrange(0, i + 1);
            assert(pre.drop_last() =~= cviews(ls@).subrange(0, i as int));
            assert(pre.last() == ls@[i as int]@);
        }
        match parse_paired_line(&ls[i]) {
            Some(d) => {
                out.push(d);
                assert(paired_views(out@) =~= before.push(paired_line(ls@[i as int]@)->Some_0));
            },
            None => {},
        }
        i += 1;
    }
    assert(cviews(ls@).subrange(0, ls@.len() as int) =~= cviews(ls@));
    out
}

/// Whether an endpoint names a paired-but-unbound Bluetooth device.
pub open spec fn is_bt_url(p: Seq<char>) -> bool {
    starts_with(p, "bt://"@)
}

/// The explicit endpoint of a `--port` path: a `bt://MAC` URL or a device path.
pub open spec fn explicit_endpoint(path: Seq<char>) -> EndpointView {
    if is_bt_url(path) {
        EndpointView {
            path,
            kind: LinkKind::BluetoothSpp,
            description: "Bluetooth SPP"@,
            bt_mac: mac_spec(path.subrange(5, path.len() as int)),
        }
    } else {
        EndpointView {
            path,
            kind: path_kind(path),
            description: crate::transport::link::kind_description(path_kind(path)),
            bt_mac: None,
        }
    }
}

/// Whether a discovered endpoint fits the preference.
pub open spec fn fits_preference(prefer: LinkPrefer, e: AdapterEndpoint) -> bool {
    match prefer {
        LinkPrefer::Usb => e.kind == LinkKind::UsbSerial,
        LinkPrefer::Bluetooth => e.kind == LinkKind::BluetoothSpp || is_bt_url(e.path@),
        LinkPrefer::Auto => true,
    }
}

/// The discovered endpoints that fit the preference, in order.
pub open spec fn preferred(prefer: LinkPrefer, v: Seq<AdapterEndpoint>) -> Seq<AdapterEndpoint>
    decreases v.len(),
{
    if v.len() == 0 {
        Seq::empty()
    } else if fits_preference(prefer, v.last()) {
        preferred(prefer, v.drop_last()).push(v.last())
    } else {
        preferred(prefer, v.drop_last())
    }
}

fn strip_bt_url(path: &Vec<char>) -> (r: Option<String>)
    ensures
        is_bt_url(path@) ==> match mac_spec(path@.subrange(5, path@.len() as int)) {
            Some(m) => r matches Some(x) && x@ == m,
            None => r is None,
        },
        !is_bt_url(path@) ==> r is None,
{
    proof {
        reveal_strlit("bt://");
    }
    if !starts_with_chars(path, &chars_of("bt://")) {
        return None;
    }
    let rest = string_of(&slice_chars(path, 5, path.len()));
    normalize_bt_mac(rest.as_str())
}

/// The endpoints to try over serial or Bluetooth: the explicit path alone, or
/// the discovered endpoints that fit the preference, sorted by it.
pub fn resolve_candidates(opts: &ConnectOptions, discovered: Vec<AdapterEndpoint>) -> (r: Vec<
    AdapterEndpoint,
>)
    ensures
        match opts.path {
            Some(p) => r@.len() == 1 && r@[0]@ == explicit_endpoint(p@),
            None => stable_sorted(
                preferred(opts.prefer, discovered@),
                endpoint_keys(opts.prefer, preferred(opts.prefer, discovered@)),
                r@,
            ),
        },
        opts.path is None && opts.prefer == LinkPrefer::Usb ==> (forall|i: int|
            0 <= i < r@.len() ==> (#[trigger] r@[i]).kind == LinkKind::UsbSerial) && (forall|j: int|
            0 <= j < discovered@.len() && (#[trigger] discovered@[j]).kind == LinkKind::UsbSerial
                ==> r@.contains(discovered@[j])),
        opts.path is None && opts.prefer == LinkPrefer::Bluetooth ==> (forall|i: int|
            0 <= i < r@.len() ==> (#[trigger] r@[i]).kind == LinkKind::BluetoothSpp || starts_with(
                r@[i].path@,
                "bt://"@,
            )) && (forall|j: int|
            0 <= j < discovered@.len() && ((#[trigger] discovered@[j]).kind == LinkKind::BluetoothSpp
                || starts_with(discovered@[j].path@, "bt://"@)) ==> r@.contains(discovered@[j])),
        opts.path is None && opts.prefer == LinkPrefer::Auto ==> forall|j: int|
            0 <= j < discovered@.len() ==> r@.contains(#[trigger] discovered@[j]),
{
    match &opts.path {
        Some(path) => {
            let pc = chars_of(path.as_str());
            let ep = if starts_with_chars(&pc, &chars_of("bt://")) {
                AdapterEndpoint {
                    path: path.clone(),
                    kind: LinkKind::BluetoothSpp,
                    description: owned("Bluetooth SPP"),
                    bt_mac: strip_bt_url(&pc),
                }
            } else {
                AdapterEndpoint::from_path(path.as_str())
            };
            vec![ep]
        },
        None => {
            let mut all: Vec<AdapterEndpoint> = Vec::new();
            let mut i: usize = 0;
            let mut rest = discovered;
            let ghost d = rest@;
            let n = rest.len();
            while i < n
                invariant
                    n == d.len(),
                    i <= n,
                    rest@ == d.subrange(i as int, n as int),
                    all@ == preferred(opts.prefer, d.subrange(0, i as int)),
                decreases n - i,
            {
                let e = rest.remove(0);
                proof {
                    let pre = d.subrange(0, i + 1);
                    assert(pre.drop_last() =~= d.subrange(0, i as int));
                    assert(pre.last() == e);
                    assert(rest@ =~= d.subrange(i + 1, n as int));
                }
                let keep = match opts.prefer {
                    LinkPrefer::Usb => e.kind == LinkKind::UsbSerial,
                    LinkPrefer::Bluetooth => e.kind == LinkKind::BluetoothSpp || starts_with_chars(
                        &chars_of(e.path.as_str()),
                        &chars_of("bt://"),
                    ),
                    LinkPrefer::Auto => true,
                };
                if keep {
                    all.push(e);
                }
                i += 1;
            }
            assert(d.subrange(0, n as int) =~= d);
            sort_endpoints(&mut all, opts.prefer);
            proof {
                lemma_candidates_follow_preference(opts.prefer, d, all@);
            }
            all
        },
    }
}

/// The Bluetooth timeout: at least four seconds.
pub open spec fn bt_timeout(ms: u64) -> u64 {
    if ms < 4000 {
        4000
    } else {
        ms
    }
}

pub fn bt_timeout_ms(opts: &ConnectOptions) -> (r: u64)
    ensures
        r == bt_timeout(opts.timeout_ms),
{
    if opts.timeout_ms < 4000 {
        4000
    } else {
        opts.timeout_ms
    }
}

/// Whether some discovered endpoint is a USB serial port.
pub open spec fn has_usb(v: Seq<AdapterEndpoint>) -> bool {
    exists|i: int| 0 <= i < v.len() && #[trigger] v[i].kind == LinkKind::UsbSerial
}

/// The native-socket Bluetooth attempts made before any serial port: the
/// `--bt-mac` given, a `bt://MAC` path, then, with no path or MAC, each paired
/// OBD-like device when Bluetooth is preferred, or under `auto` when no USB
/// port was found (with a USB port, `auto` tries USB first and reaches paired
/// devices only through their `bt://` rows after the serial ports).
pub open spec fn bt_first_spec(
    bt_mac: Option<Seq<char>>,
    path: Option<Seq<char>>,
    prefer: LinkPrefer,
    hints: Seq<Seq<char>>,
    usb_found: bool,
) -> Seq<Seq<char>> {
    let a = match bt_mac {
        Some(m) => seq![m],
        None => Seq::empty(),
    };
    let b = match path {
        Some(p) => if is_bt_url(p) {
            match mac_spec(p.subrange(5, p.len() as int)) {
                Some(m) => seq![m],
                None => Seq::empty(),
            }
        } else {
            Seq::empty()
        },
        None => Seq::empty(),
    };
    let c = if path is None && bt_mac is None && (prefer == LinkPrefer::Bluetooth || (prefer
        == LinkPrefer::Auto && !usb_found)) {
        hints
    } else {
        Seq::empty()
    };
    a + b + c
}

pub open spec fn opt_view(o: Option<String>) -> Option<Seq<char>> {
    match o {
        Some(s) => Some(s@),
        None => None,
    }
}

pub fn bt_first_attempts(
    opts: &ConnectOptions,
    hints: &Vec<PairedDevice>,
    discovered: &Vec<AdapterEndpoint>,
) -> (r: Vec<String>)
    ensures
        sviews(r@) == bt_first_spec(
            opt_view(opts.bt_mac),
            opt_view(opts.path),
            opts.prefer,
            paired_views(hints@).map_values(|d: (Seq<char>, Seq<char>)| d.0),
            has_usb(discovered@),
        ),
{
    let mut usb_found = false;
    let mut q: usize = 0;
    while q < discovered.len()
        invariant
            q <= discovered@.len(),
            usb_found == exists|i: int| 0 <= i < q && #[trigger] discovered@[i].kind
                == LinkKind::UsbSerial,
        decreases discovered@.len() - q,
    {
        if discovered[q].kind == LinkKind::UsbSerial {
            usb_found = true;
        }
        q += 1;
    }
    let mut r: Vec<String> = Vec::new();
    if let Some(m) = &opts.bt_mac {
        r.push(m.clone());
    }
    let ghost a = sviews(r@);
    if let Some(p) = &opts.path {
        if let Some(m) = strip_bt_url(&chars_of(p.as_str())) {
            r.push(m);
        }
    }
    let ghost ab = sviews(r@);
    let use_hints = opts.path.is_none() && opts.bt_mac.is_none() && match opts.prefer {
        LinkPrefer::Usb => false,
        LinkPrefer::Bluetooth => true,
        LinkPrefer::Auto => !usb_found,
    };
    if use_hints {
        let mut i: usize = 0;
        while i < hints.len()
            invariant
                i <= hints@.len(),
                sviews(r@) == ab + paired_views(hints@).map_values(
                    |d: (Seq<char>, Seq<char>)| d.0,
                ).subrange(0, i as int),
            decreases hints@.len() - i,
        {
            let ghost before = sviews(r@);
            r.push(hints[i].mac.clone());
            proof {
                assert(sviews(r@) =~= before.push(hints@[i as int].mac@));
                let hs = paired_views(hints@).map_values(|d: (Seq<char>, Seq<char>)| d.0);
                assert(hs[i as int] == hints@[i as int].mac@);
                assert(sviews(r@) =~= ab + hs.subrange(0, i + 1));
            }
            i += 1;
        }
        proof {
            let hs = paired_views(hints@).map_values(|d: (Seq<char>, Seq<char>)| d.0);
            assert(hs.subrange(0, hints@.len() as int) =~= hs);
        }
    }
    proof {
        let hs = paired_views(hints@).map_values(|d: (Seq<char>, Seq<char>)| d.0);
        let spec = bt_first_spec(
            opt_view(opts.bt_mac),
            opt_view(opts.path),
            opts.prefer,
            hs,
            has_usb(discovered@),
        );
        if !use_hints {
            assert(sviews(r@) =~= spec);
        } else {
            assert(sviews(r@) =~= spec);
        }
    }
    r
}

/// One connection attempt over a serial port (USB or `/dev/rfcomm`).
#[derive(Debug, Clone)]
pub struct SerialAttempt {
    pub endpoint: AdapterEndpoint,
    pub baud: u32,
    pub timeout_ms: u64,
}

/// A planned connection attempt.
#[derive(Debug, Clone)]
pub enum ConnectAttempt {
    /// Native RFCOMM socket to a MAC address.
    BtSpp(String),
    /// Serial port at one baud rate.
    Serial(SerialAttempt),
}

pub open spec fn serial_timeout(opts: ConnectOptions, kind: LinkKind) -> u64 {
    if kind == LinkKind::BluetoothSpp {
        bt_timeout(opts.timeout_ms)
    } else {
        opts.timeout_ms
    }
}

/// The attempts for one candidate endpoint: a `bt://` endpoint with a MAC is
/// one socket attempt (none without a MAC); any other endpoint is tried at
/// each baud rate of [`baud_list`].
pub open spec fn endpoint_attempts_ok(opts: ConnectOptions, e: AdapterEndpoint, a: Seq<
    ConnectAttempt,
>) -> bool {
    if is_bt_url(e.path@) {
        let mac = match e.bt_mac {
            Some(m) => Some(m@),
            None => mac_spec(e.path@.subrange(5, e.path@.len() as int)),
        };
        match mac {
            Some(m) => a.len() == 1 && (a[0] matches ConnectAttempt::BtSpp(x) && x@ == m),
            None => a.len() == 0,
        }
    } else {
        let bauds = match opts.baud {
            Some(b) => seq![b],
            None => seq![38400u32, 115200u32, 9600u32],
        };
        &&& a.len() == bauds.len()
        &&& forall|k: int|
            0 <= k < a.len() ==> (#[trigger] a[k] matches ConnectAttempt::Serial(s) && s.endpoint
                == e && s.baud == bauds[k] && s.timeout_ms == serial_timeout(opts, e.kind))
    }
}

fn endpoint_attempts(opts: &ConnectOptions, e: &AdapterEndpoint) -> (r: Vec<ConnectAttempt>)
    ensures
        endpoint_attempts_ok(*opts, *e, r@),
{
    let pc = chars_of(e.path.as_str());
    let mut r: Vec<ConnectAttempt> = Vec::new();
    if starts_with_chars(&pc, &chars_of("bt://")) {
        let mac = match &e.bt_mac {
            Some(m) => Some(m.clone()),
            None => strip_bt_url(&pc),
        };
        if let Some(m) = mac {
            r.push(ConnectAttempt::BtSpp(m));
        }
        return r;
    }
    let bauds = baud_list(opts, e.kind);
    let timeout_ms = if e.kind == LinkKind::BluetoothSpp {
        bt_timeout_ms(opts)
    } else {
        opts.timeout_ms
    };
    let mut k: usize = 0;
    while k < bauds.len()
        invariant
            k <= bauds@.len(),
            r@.len() == k,
            timeout_ms == serial_timeout(*opts, e.kind),
            forall|j: int|
                0 <= j < k ==> (#[trigger] r@[j] matches ConnectAttempt::Serial(s) && s.endpoint
                    == *e && s.baud == bauds@[j] && s.timeout_ms == timeout_ms),
        decreases bauds@.len() - k,
    {
        r.push(
            ConnectAttempt::Serial(
                SerialAttempt { endpoint: e.duplicate(), baud: bauds[k], timeout_ms },
            ),
        );
        k += 1;
    }
    r
}

/// The serial-side attempts, candidate by candidate, in order.
pub fn serial_attempts(opts: &ConnectOptions, candidates: &Vec<AdapterEndpoint>) -> (r: Vec<
    Vec<ConnectAttempt>,
>)
    ensures
        r@.len() == candidates@.len(),
        forall|i: int|
            0 <= i < r@.len() ==> endpoint_attempts_ok(*opts, candidates@[i], #[trigger] r@[i]@),
{
    let mut r: Vec<Vec<ConnectAttempt>> = Vec::new();
    let mut i: usize = 0;
    while i < candidates.len()
        invariant
            i <= candidates@.len(),
            r@.len() == i,
            forall|j: int|
                0 <= j < i ==> endpoint_attempts_ok(*opts, candidates@[j], #[trigger] r@[j]@),
        decreases candidates@.len() - i,
    {
        r.push(endpoint_attempts(opts, &candidates[i]));
        i += 1;
    }
    r
}

/// The error a failed connect reports: no adapter when nothing was tried,
/// else every attempt's failure, one per line.
pub fn connect_failure(errors: &Vec<String>) -> (r: Error)
    ensures
        errors@.len() == 0 ==> r is NoAdapter,
        errors@.len() > 0 ==> (r matches Error::AdapterInit(m) && m@
            == "no working adapter (tried USB and/or Bluetooth).\n"@ + join_with(
            sviews(errors@),
            "\n"@,
        )),
{
    if errors.len() == 0 {
        return Error::NoAdapter;
    }
    let mut parts: Vec<Vec<char>> = Vec::new();
    let mut i: usize = 0;
    while i < errors.len()
        invariant
            i <= errors@.len(),
            cviews(parts@) == sviews(errors@).subrange(0, i as int),
        decreases errors@.len() - i,
    {
        let ghost before = cviews(parts@);
        parts.push(chars_of(errors[i].as_str()));
        assert(cviews(parts@) =~= before.push(errors@[i as int]@));
        assert(cviews(parts@) =~= sviews(errors@).subrange(0, i + 1));
        i += 1;
    }
    assert(sviews(errors@).subrange(0, errors@.len() as int) =~= sviews(errors@));
    let joined = string_of(&join_chars(&parts, &chars_of("\n")));
    Error::AdapterInit(concat("no working adapter (tried USB and/or Bluetooth).\n", joined.as_str()))
}

/// The device paths among endpoints (paired-but-unbound devices left out).
pub open spec fn serial_paths_spec(v: Seq<AdapterEndpoint>) -> Seq<Seq<char>>
    decreases v.len(),
{
    if v.len() == 0 {
        Seq::empty()
    } else if is_bt_url(v.last().path@) {
        serial_paths_spec(v.drop_last())
    } else {
        serial_paths_spec(v.drop_last()).push(v.last().path@)
    }
}

pub fn serial_port_paths(endpoints: &Vec<AdapterEndpoint>) -> (r: Vec<String>)
    ensures
        sviews(r@) == serial_paths_spec(endpoints@),
{
    let mut r: Vec<String> = Vec::new();
    let mut i: usize = 0;
    while i < endpoints.len()
        invariant
            i <= endpoints@.len(),
            sviews(r@) == serial_paths_spec(endpoints@.subrange(0, i as int)),
        decreases endpoints@.len() - i,
    {
        proof {
            let pre = endpoints@.subrange(0, i + 1);
            assert(pre.drop_last() =~= endpoints@.subrange(0, i as int));
        }
        let ghost before = sviews(r@);
        if !starts_with_chars(&chars_of(endpoints[i].path.as_str()), &chars_of("bt://")) {
            r.push(endpoints[i].path.clone());
            assert(sviews(r@) =~= before.push(endpoints@[i as int].path@));
        }
        i += 1;
    }
    assert(endpoints@.subrange(0, endpoints@.len() as int) =~= endpoints@);
    r
}

/// `s` left-aligned in a field of `w` characters, as `{:<w}` formats it.
pub open spec fn padded(s: Seq<char>, w: int) -> Seq<char> {
    if s.len() < w {
        s + Seq::new((w - s.len()) as nat, |i: int| ' ')
    } else {
        s
    }
}

fn pad_to(s: &str, w: usize) -> (r: Vec<char>)
    ensures
        r@ == padded(s@, w as int),
{
    let mut r = chars_of(s);
    let ghost orig = r@;
    while r.len() < w
        invariant
            r@.len() >= orig.len(),
            r@.subrange(0, orig.len() as int) == orig,
            forall|k: int| orig.len() <= k < r@.len() ==> r@[k] == ' ',
            orig.len() < w ==> r@.len() <= w,
            orig.len() >= w ==> r@ == orig,
        decreases w - r@.len(),
    {
        let ghost before = r@;
        r.push(' ');
        assert(r@.subrange(0, orig.len() as int) =~= before.subrange(0, orig.len() as int));
    }
    assert(r@ =~= padded(orig, w as int));
    r
}

/// One row of the endpoint listing.
pub open spec fn endpoint_row(e: EndpointView) -> Seq<char> {
    padded(e.path, 18) + "  "@ + padded(link_kind_text(e.kind), 10) + "  "@ + e.description
        + match e.bt_mac {
        Some(m) => " mac="@ + m,
        None => Seq::empty(),
    }
}

pub open spec fn no_adapters_text() -> Seq<char> {
    "No adapters found.\nWire: plug USB OBD and check /dev/ttyUSB* or /dev/ttyACM*.\nBluetooth: pair the adapter, then: sudo rfcomm bind 0 <MAC>\nor: obdtui --bt-mac <MAC>"@
}

/// Format endpoints for CLI listing.
pub fn format_endpoint_list(endpoints: &Vec<AdapterEndpoint>) -> (r: String)
    ensures
        endpoints@.len() == 0 ==> r@ == no_adapters_text(),
        endpoints@.len() > 0 ==> r@ == join_with(
            endpoint_views(endpoints@).map_values(|e: EndpointView| endpoint_row(e)),
            "\n"@,
        ),
{
    if endpoints.len() == 0 {
        return owned(
            "No adapters found.\nWire: plug USB OBD and check /dev/ttyUSB* or /dev/ttyACM*.\nBluetooth: pair the adapter, then: sudo rfcomm bind 0 <MAC>\nor: obdtui --bt-mac <MAC>",
        );
    }
    let ghost rows = endpoint_views(endpoints@).map_values(|e: EndpointView| endpoint_row(e));
    let mut lines_v: Vec<Vec<char>> = Vec::new();
    let mut i: usize = 0;
    while i < endpoints.len()
        invariant
            i <= endpoints@.len(),
            rows == endpoint_views(endpoints@).map_values(|e: EndpointView| endpoint_row(e)),
            cviews(lines_v@) == rows.subrange(0, i as int),
        decreases endpoints@.len() - i,
    {
        let e = &endpoints[i];
        let mut row = pad_to(e.path.as_str(), 18);
        let mut tail = string_of(&row);
        push_str(&mut tail, "  ");
        let kind = pad_to(e.kind.as_str(), 10);
        push_str(&mut tail, string_of(&kind).as_str());
        push_str(&mut tail, "  ");
        push_str(&mut tail, e.description.as_str());
        if let Some(m) = &e.bt_mac {
            push_str(&mut tail, " mac=");
            push_str(&mut tail, m.as_str());
        }
        row = chars_of(tail.as_str());
        proof {
            assert(row@ =~= endpoint_row(e@));
            assert(rows[i as int] == endpoint_row(e@));
        }
        let ghost before = cviews(lines_v@);
        lines_v.push(row);
        assert(cviews(lines_v@) =~= before.push(rows[i as int]));
        assert(cviews(lines_v@) =~= rows.subrange(0, i + 1));
        i += 1;
    }
    assert(rows.subrange(0, endpoints@.len() as int) =~= rows);
    string_of(&join_chars(&lines_v, &chars_of("\n")))
}

/// The endpoint of a serial device path.
pub open spec fn path_endpoint(p: Seq<char>) -> EndpointView {
    EndpointView {
        path: p,
        kind: path_kind(p),
        description: crate::transport::link::kind_description(path_kind(p)),
        bt_mac: None,
    }
}

/// Serial ports that are candidates, each path once, in order.
pub open spec fn with_ports(names: Seq<Seq<char>>) -> Seq<EndpointView>
    decreases names.len(),
{
    if names.len() == 0 {
        Seq::empty()
    } else {
        let v = with_ports(names.drop_last());
        let e = path_endpoint(names.last());
        if candidate(e) {
            with_unique(v, e)
        } else {
            v
        }
    }
}

/// The endpoint of an existing `/dev/rfcomm{n}` node.
pub open spec fn rfcomm_endpoint(n: u8) -> EndpointView {
    EndpointView {
        path: "/dev/rfcomm"@ + decimal(n),
        kind: LinkKind::BluetoothSpp,
        description: "Bluetooth SPP RFCOMM "@ + decimal(n),
        bt_mac: None,
    }
}

pub open spec fn with_rfcomm(v: Seq<EndpointView>, nodes: Seq<u8>) -> Seq<EndpointView>
    decreases nodes.len(),
{
    if nodes.len() == 0 {
        v
    } else {
        with_unique(with_rfcomm(v, nodes.drop_last()), rfcomm_endpoint(nodes.last()))
    }
}

/// Whether some endpoint already has the given Bluetooth address.
pub open spec fn has_mac(v: Seq<EndpointView>, m: Seq<char>) -> bool {
    exists|i: int| 0 <= i < v.len() && #[trigger] v[i].bt_mac == Some(m)
}

/// The row of a paired device that is not bound to an RFCOMM node.
pub open spec fn hint_endpoint(d: (Seq<char>, Seq<char>)) -> EndpointView {
    EndpointView {
        path: "bt://"@ + d.0,
        kind: LinkKind::BluetoothSpp,
        description: "paired Bluetooth (not bound): "@ + d.1,
        bt_mac: Some(d.0),
    }
}

pub open spec fn with_hints(v: Seq<EndpointView>, hints: Seq<(Seq<char>, Seq<char>)>) -> Seq<
    EndpointView,
>
    decreases hints.len(),
{
    if hints.len() == 0 {
        v
    } else {
        let w = with_hints(v, hints.drop_last());
        if has_mac(w, hints.last().0) {
            w
        } else {
            w.push(hint_endpoint(hints.last()))
        }
    }
}

/// Discovered endpoints before sorting: candidate serial ports, existing RFCOMM
/// nodes, then paired devices with no row for their address yet.
pub open spec fn discovered_spec(
    ports: Seq<Seq<char>>,
    nodes: Seq<u8>,
    hints: Seq<(Seq<char>, Seq<char>)>,
) -> Seq<EndpointView> {
    with_hints(with_rfcomm(with_ports(ports), nodes), hints)
}

/// The endpoints discovery reports, given the serial ports the system lists,
/// the RFCOMM nodes that exist and the paired OBD-like devices; sorted USB
/// first, then Bluetooth, then others, each by path.
pub fn assemble_endpoints(
    port_names: &Vec<String>,
    rfcomm_nodes: &Vec<u8>,
    hints: &Vec<PairedDevice>,
) -> (r: Vec<AdapterEndpoint>)
    ensures
        exists|pre: Seq<AdapterEndpoint>|
            endpoint_views(pre) == discovered_spec(sviews(port_names@), rfcomm_nodes@, paired_views(hints@))
            && stable_sorted(pre, endpoint_keys(LinkPrefer::Auto, pre), r@),
{
    let mut out: Vec<AdapterEndpoint> = Vec::new();
    let mut i: usize = 0;
    while i < port_names.len()
        invariant
            i <= port_names@.len(),
            endpoint_views(out@) == with_ports(sviews(port_names@).subrange(0, i as int)),
        decreases port_names@.len() - i,
    {
        proof {
            let pre = sviews(port_names@).subrange(0, i + 1);
            assert(pre.drop_last() =~= sviews(port_names@).subrange(0, i as int));
            assert(pre.last() == port_names@[i as int]@);
        }
        let ep = AdapterEndpoint::from_path(port_names[i].as_str());
        if is_candidate(&ep) {
            push_unique(&mut out, ep);
        }
        i += 1;
    }
    assert(sviews(port_names@).subrange(0, port_names@.len() as int) =~= sviews(port_names@));
    let ghost base = endpoint_views(out@);
    let mut j: usize = 0;
    while j < rfcomm_nodes.len()
        invariant
            j <= rfcomm_nodes@.len(),
            endpoint_views(out@) == with_rfcomm(base, rfcomm_nodes@.subrange(0, j as int)),
        decreases rfcomm_nodes@.len() - j,
    {
        proof {
            let pre = rfcomm_nodes@.subrange(0, j + 1);
            assert(pre.drop_last() =~= rfcomm_nodes@.subrange(0, j as int));
        }
        let n: u8 = rfcomm_nodes[j];
        let path = rfcomm_path(n);
        let mut ep = AdapterEndpoint::from_path(path.as_str());
        ep.kind = LinkKind::BluetoothSpp;
        let d = decimal_string(n);
        ep.description = concat("Bluetooth SPP RFCOMM ", d.as_str());
        assert(ep@ == rfcomm_endpoint(n));
        push_unique(&mut out, ep);
        j += 1;
    }
    assert(rfcomm_nodes@.subrange(0, rfcomm_nodes@.len() as int) =~= rfcomm_nodes@);
    let ghost mid = endpoint_views(out@);
    let mut k: usize = 0;
    while k < hints.len()
        invariant
            k <= hints@.len(),
            endpoint_views(out@) == with_hints(mid, paired_views(hints@).subrange(0, k as int)),
        decreases hints@.len() - k,
    {
        let h = &hints[k];
        proof {
            let pre = paired_views(hints@).subrange(0, k + 1);
            assert(pre.drop_last() =~= paired_views(hints@).subrange(0, k as int));
            assert(pre.last() == (h.mac@, h.name@));
        }
        let hm = chars_of(h.mac.as_str());
        let mut seen = false;
        let mut m: usize = 0;
        while m < out.len()
            invariant
                m <= out@.len(),
                hm@ == h.mac@,
                !seen ==> forall|q: int| 0 <= q < m ==> endpoint_views(out@)[q].bt_mac != Some(h.mac@),
                seen ==> has_mac(endpoint_views(out@), h.mac@),
            decreases out@.len() - m,
        {
            if let Some(x) = &out[m].bt_mac {
                if crate::text::chars_eq(&chars_of(x.as_str()), &hm) {
                    assert(endpoint_views(out@)[m as int].bt_mac == Some(h.mac@));
                    seen = true;
                }
            }
            m += 1;
        }
        if !seen {
            let ghost before = endpoint_views(out@);
            out.push(
                AdapterEndpoint {
                    path: concat("bt://", h.mac.as_str()),
                    kind: LinkKind::BluetoothSpp,
                    description: concat("paired Bluetooth (not bound): ", h.name.as_str()),
                    bt_mac: Some(h.mac.clone()),
                },
            );
            assert(endpoint_views(out@) =~= before.push(hint_endpoint((h.mac@, h.name@))));
        }
        k += 1;
    }
    assert(paired_views(hints@).subrange(0, hints@.len() as int) =~= paired_views(hints@));
    let ghost pre = out@;
    sort_endpoints(&mut out, LinkPrefer::Auto);
    out
}


/// The note kept for a failed Bluetooth attempt: `bt-spp <mac>: <error>`.
pub fn bt_attempt_error(mac: &str, e: &Error) -> (r: String)
    ensures
        r@ == "bt-spp "@ + mac@ + ": "@ + error_text(*e),
{
    let mut r = owned("bt-spp ");
    push_str(&mut r, mac);
    push_str(&mut r, ": ");
    let m = e.message();
    push_str(&mut r, m.as_str());
    r
}

/// The note kept for a failed serial attempt: `<path> @ <baud>: <error>`.
pub fn serial_attempt_error(path: &str, baud: u32, e: &Error) -> (r: String)
    ensures
        r@ == path@ + " @ "@ + decimal_digits(baud as nat) + ": "@ + error_text(*e),
{
    let mut r = owned(path);
    push_str(&mut r, " @ ");
    push_decimal_u32(&mut r, baud);
    push_str(&mut r, ": ");
    let m = e.message();
    push_str(&mut r, m.as_str());
    r
}

} // verus!

verus! {

proof fn lemma_preferred_members(prefer: LinkPrefer, v: Seq<AdapterEndpoint>)
    ensures
        forall|i: int|
            0 <= i < preferred(prefer, v).len() ==> fits_preference(
                prefer,
                #[trigger] preferred(prefer, v)[i],
            ) && v.contains(preferred(prefer, v)[i]),
        forall|j: int|
            0 <= j < v.len() && fits_preference(prefer, #[trigger] v[j]) ==> preferred(
                prefer,
                v,
            ).contains(v[j]),
    decreases v.len(),
{
    if v.len() > 0 {
        let d = v.drop_last();
        lemma_preferred_members(prefer, d);
        let pd = preferred(prefer, d);
        let pv = preferred(prefer, v);
        assert forall|i: int| 0 <= i < pv.len() implies fits_preference(prefer, #[trigger] pv[i])
            && v.contains(pv[i]) by {
            if i < pd.len() {
                assert(pv[i] == pd[i]);
                let k = choose|k: int| 0 <= k < d.len() && d[k] == pd[i];
                assert(v[k] == d[k]);
            } else {
                assert(pv[i] == v.last());
                assert(v[v.len() - 1] == v.last());
            }
        }
        assert forall|j: int| 0 <= j < v.len() && fits_preference(prefer, #[trigger] v[j]) implies pv.contains(
            v[j],
        ) by {
            if j < d.len() {
                assert(d[j] == v[j]);
                let k = choose|k: int| 0 <= k < pd.len() && pd[k] == d[j];
                assert(pv[k] == pd[k]);
            } else {
                assert(pv[pv.len() - 1] == v[j]);
            }
        }
    }
}

/// The candidates tried without an explicit path (any result of
/// `resolve_candidates` for discovered endpoints `discovered`): under
/// `--prefer usb` exactly the discovered USB serial endpoints, under
/// `--prefer bluetooth` exactly the Bluetooth ones (SPP devices and `bt://`
/// paths), and under `auto` all of them.
pub proof fn lemma_candidates_follow_preference(
    prefer: LinkPrefer,
    discovered: Seq<AdapterEndpoint>,
    r: Seq<AdapterEndpoint>,
)
    requires
        stable_sorted(
            preferred(prefer, discovered),
            endpoint_keys(prefer, preferred(prefer, discovered)),
            r,
        ),
    ensures
        prefer == LinkPrefer::Usb ==> (forall|i: int|
            0 <= i < r.len() ==> (#[trigger] r[i]).kind == LinkKind::UsbSerial) && (forall|j: int|
            0 <= j < discovered.len() && (#[trigger] discovered[j]).kind == LinkKind::UsbSerial
                ==> r.contains(discovered[j])),
        prefer == LinkPrefer::Bluetooth ==> (forall|i: int|
            0 <= i < r.len() ==> (#[trigger] r[i]).kind == LinkKind::BluetoothSpp || starts_with(
                r[i].path@,
                "bt://"@,
            )) && (forall|j: int|
            0 <= j < discovered.len() && ((#[trigger] discovered[j]).kind == LinkKind::BluetoothSpp
                || starts_with(discovered[j].path@, "bt://"@)) ==> r.contains(discovered[j])),
        prefer == LinkPrefer::Auto ==> forall|j: int|
            0 <= j < discovered.len() ==> r.contains(#[trigger] discovered[j]),
{
    let pv = preferred(prefer, discovered);
    lemma_preferred_members(prefer, discovered);
    let p = choose|p: Seq<int>|
        crate::order::is_permutation(p, pv.len() as int) && crate::order::sorts_stably(
            endpoint_keys(prefer, pv),
            p,
        ) && r.len() == pv.len() && (forall|i: int| 0 <= i < r.len() ==> #[trigger] r[i] == pv[p[i]]);
    assert forall|i: int| 0 <= i < r.len() implies fits_preference(prefer, #[trigger] r[i]) by {
        assert(r[i] == pv[p[i]]);
    }
    assert forall|j: int| 0 <= j < discovered.len() && fits_preference(prefer, #[trigger] discovered[j])
        implies r.contains(discovered[j]) by {
        let k = choose|k: int| 0 <= k < pv.len() && pv[k] == discovered[j];
        crate::order::lemma_permutation_onto(p, pv.len() as int, k);
        let i = choose|i: int| 0 <= i < p.len() && #[trigger] p[i] == k;
        assert(r[i] == pv[p[i]]);
    }
}

} // verus!
