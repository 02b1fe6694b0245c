//! Adapter endpoint descriptors (path + link kind).
use crate::bus::LinkKind;
use crate::text::{chars_of, contains, contains_chars, hex_digits_of, is_hex_digit, keep_hex, lemma_keep_hex_all_hex, lower, lower_of, owned, string_of, to_upper, upper, upper_of};
use vstd::prelude::*;

verus! {

/// One host-side endpoint that may host an ELM/STN adapter.
#[derive(Debug, Clone)]
pub struct AdapterEndpoint {
    /// Device path (example: `/dev/ttyUSB0`, `/dev/rfcomm0`).
    pub path: String,
    pub kind: LinkKind,
    /// Short human description.
    pub description: String,
    /// Optional Bluetooth MAC if known (uppercase `AA:BB:…`).
    pub bt_mac: Option<String>,
}

pub struct EndpointView {
    pub path: Seq<char>,
    pub kind: LinkKind,
    pub description: Seq<char>,
    pub bt_mac: Option<Seq<char>>,
}

impl View for AdapterEndpoint {
    type V = EndpointView;

    open spec fn view(&self) -> EndpointView {
        EndpointView {
            path: self.path@,
            kind: self.kind,
            description: self.description@,
            bt_mac: match self.bt_mac {
                Some(m) => Some(m@),
                None => None,
            },
        }
    }
}

pub open spec fn endpoint_views(v: Seq<AdapterEndpoint>) -> Seq<EndpointView> {
    v.map_values(|e: AdapterEndpoint| e@)
}

/// The link kind a device path's name suggests.
pub open spec fn path_kind(path: Seq<char>) -> LinkKind {
    let n = lower(path);
    if contains(n, "rfcomm"@) || contains(n, "tty.bluetooth"@) || contains(n, "bthmodem"@)
        || contains(n, "/dev/cu.bluetooth"@) || contains(n, "incoming-spp"@) {
        LinkKind::BluetoothSpp
    } else if contains(n, "ttyusb"@) || contains(n, "ttyacm"@) || contains(n, "cu.usb"@)
        || contains(n, "usbserial"@) || contains(n, "usbmodem"@) {
        LinkKind::UsbSerial
    } else if contains(n, "bluetooth"@) || contains(n, "bt_"@) {
        LinkKind::BluetoothSpp
    } else if contains(n, "usb"@) {
        LinkKind::UsbSerial
    } else {
        LinkKind::Other
    }
}

/// The description an endpoint of a given kind gets.
pub open spec fn kind_description(k: LinkKind) -> Seq<char> {
    match k {
        LinkKind::UsbSerial => "USB serial OBD adapter"@,
        LinkKind::BluetoothSpp => "Bluetooth SPP (RFCOMM)"@,
        LinkKind::Other => "Serial port"@,
    }
}

impl AdapterEndpoint {
    /// An equal copy.
    pub fn duplicate(&self) -> (r: Self)
        ensures
            r == *self,
    {
        AdapterEndpoint {
            path: self.path.clone(),
            kind: self.kind,
            description: self.description.clone(),
            bt_mac: match &self.bt_mac {
                Some(m) => Some(m.clone()),
                None => None,
            },
        }
    }

    pub fn new(path: &str, kind: LinkKind, description: &str) -> (r: Self)
        ensures
            r@ == (EndpointView {
                path: path@,
                kind,
                description: description@,
                bt_mac: None,
            }),
    {
        AdapterEndpoint { path: owned(path), kind, description: owned(description), bt_mac: None }
    }

    /// Classify a device path by name heuristics.
    pub fn from_path(path: &str) -> (r: Self)
        ensures
            r@ == (EndpointView {
                path: path@,
                kind: path_kind(path@),
                description: kind_description(path_kind(path@)),
                bt_mac: None,
            }),
    {
        let kind = classify_path(path);
        let description = match kind {
            LinkKind::UsbSerial => "USB serial OBD adapter",
            LinkKind::BluetoothSpp => "Bluetooth SPP (RFCOMM)",
            LinkKind::Other => "Serial port",
        };
        Self::new(path, kind, description)
    }
}

/// Classify a serial device path as USB, Bluetooth RFCOMM, or other.
pub fn classify_path(path: &str) -> (r: LinkKind)
    ensures
        r == path_kind(path@),
{
    let n = lower_of(&chars_of(path));
    if contains_chars(&n, &chars_of("rfcomm")) || contains_chars(&n, &chars_of("tty.bluetooth"))
        || contains_chars(&n, &chars_of("bthmodem")) || contains_chars(
        &n,
        &chars_of("/dev/cu.bluetooth"),
    ) || contains_chars(&n, &chars_of("incoming-spp")) {
        return LinkKind::BluetoothSpp;
    }
    if contains_chars(&n, &chars_of("ttyusb")) || contains_chars(&n, &chars_of("ttyacm"))
        || contains_chars(&n, &chars_of("cu.usb")) || contains_chars(&n, &chars_of("usbserial"))
        || contains_chars(&n, &chars_of("usbmodem")) {
        return LinkKind::UsbSerial;
    }
    if contains_chars(&n, &chars_of("bluetooth")) || contains_chars(&n, &chars_of("bt_")) {
        return LinkKind::BluetoothSpp;
    }
    if contains_chars(&n, &chars_of("usb")) {
        return LinkKind::UsbSerial;
    }
    LinkKind::Other
}

/// The canonical spelling `AA:BB:CC:DD:EE:FF` of twelve hex digits.
pub open spec fn mac_text(h: Seq<char>) -> Seq<char> {
    seq![h[0], h[1], ':', h[2], h[3], ':', h[4], h[5], ':', h[6], h[7], ':', h[8], h[9], ':', h[10], h[11]]
}

/// A MAC address, when its hex digits (all else ignored) are exactly twelve.
pub open spec fn mac_spec(mac: Seq<char>) -> Option<Seq<char>> {
    let h = upper(keep_hex(mac));
    if h.len() != 12 {
        None
    } else {
        Some(mac_text(h))
    }
}

/// Normalize a Bluetooth MAC to `AA:BB:CC:DD:EE:FF` uppercase.
pub fn normalize_bt_mac(mac: &str) -> (r: Option<String>)
    ensures
        match mac_spec(mac@) {
            Some(m) => r matches Some(s) && s@ == m,
            None => r is None,
        },
{
    let hex = upper_of(&hex_digits_of(&chars_of(mac)));
    if hex.len() != 12 {
        return None;
    }
    let mut out: Vec<char> = Vec::new();
    let mut i: usize = 0;
    while i < 6
        invariant
            hex@.len() == 12,
            i <= 6,
            out@.len() == if i == 0 { 0 } else { 3 * i - 1 },
            forall|k: int| 0 <= k < out@.len() ==> out@[k] == mac_text(hex@)[k],
        decreases 6 - i,
    {
        if i > 0 {
            out.push(':');
        }
        out.push(hex[2 * i]);
        out.push(hex[2 * i + 1]);
        i += 1;
    }
    assert(out@ =~= mac_text(hex@));
    Some(string_of(&out))
}

} // verus!

verus! {

/// Normalizing a normalized MAC changes nothing: the canonical spelling is a
/// fixed point of `normalize_bt_mac`.
#[verifier::rlimit(40)]
pub proof fn lemma_normalized_mac_is_fixed(mac: Seq<char>)
    requires
        mac_spec(mac) is Some,
    ensures
        mac_spec(mac_spec(mac)->0) == mac_spec(mac),
{
    let h = upper(keep_hex(mac));
    lemma_keep_hex_all_hex(mac);
    assert forall|i: int| 0 <= i < h.len() implies is_hex_digit(#[trigger] h[i]) && to_upper(h[i])
        == h[i] by {
        assert(h[i] == to_upper(keep_hex(mac)[i]));
    }
    let n = mac_text(h);
    assert(keep_hex(n) =~= h) by {
        reveal_with_fuel(keep_hex, 18);
    }
    assert(upper(h) =~= h);
}

} // verus!
