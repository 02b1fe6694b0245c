//! Bus tags for dual-bus capture (HS-CAN / MS-CAN) and host link kind.
use crate::text::{chars_of, concat, is_text, lower, lower_of, owned, push_str, string_of};
use vstd::prelude::*;

verus! {

/// Host link type for an OBD adapter (USB serial vs Bluetooth SPP).
#[derive(Debug, Clone, Copy, PartialEq, Eq, Hash, Structural)]
pub enum LinkKind {
    /// USB CDC / USB-serial (FTDI, CH340, CP210x, etc.).
    UsbSerial,
    /// Bluetooth classic Serial Port Profile via RFCOMM.
    BluetoothSpp,
    /// Other or unclassified serial path.
    Other,
}

impl Default for LinkKind {
    fn default() -> (r: Self)
        ensures
            r == LinkKind::Other,
    {
        LinkKind::Other
    }
}

pub open spec fn link_kind_text(k: LinkKind) -> Seq<char> {
    match k {
        LinkKind::UsbSerial => "usb"@,
        LinkKind::BluetoothSpp => "bluetooth"@,
        LinkKind::Other => "other"@,
    }
}

/// The link kind a (lower-cased) name stands for.
pub open spec fn link_kind_named(l: Seq<char>) -> Option<LinkKind> {
    if l == "usb"@ || l == "usb_serial"@ || l == "wired"@ || l == "serial"@ {
        Some(LinkKind::UsbSerial)
    } else if l == "bluetooth"@ || l == "bt"@ || l == "spp"@ || l == "rfcomm"@ || l
        == "bluetooth_spp"@ {
        Some(LinkKind::BluetoothSpp)
    } else if l == "other"@ || l == "auto"@ {
        Some(LinkKind::Other)
    } else {
        None
    }
}

impl LinkKind {
    pub fn as_str(self) -> (r: &'static str)
        ensures
            r@ == link_kind_text(self),
    {
        match self {
            LinkKind::UsbSerial => "usb",
            LinkKind::BluetoothSpp => "bluetooth",
            LinkKind::Other => "other",
        }
    }

    /// Typical baud rates to try for this link (first is preferred).
    pub fn default_bauds(self) -> (r: Vec<u32>)
        ensures
            r@ == seq![38400u32, 115200u32, 9600u32],
    {
        vec![38400, 115200, 9600]
    }

    /// Parses a link kind name, ignoring ASCII case.
    pub fn parse(s: &str) -> (r: Result<LinkKind, String>)
        ensures
            match link_kind_named(lower(s@)) {
                Some(k) => r == Ok::<LinkKind, String>(k),
                None => r matches Err(m) && m@ == "unknown link kind: "@ + lower(s@),
            },
    {
        let l = lower_of(&chars_of(s));
        if is_text(&l, "usb") || is_text(&l, "usb_serial") || is_text(&l, "wired") || is_text(
            &l,
            "serial",
        ) {
            Ok(LinkKind::UsbSerial)
        } else if is_text(&l, "bluetooth") || is_text(&l, "bt") || is_text(&l, "spp") || is_text(
            &l,
            "rfcomm",
        ) || is_text(&l, "bluetooth_spp") {
            Ok(LinkKind::BluetoothSpp)
        } else if is_text(&l, "other") || is_text(&l, "auto") {
            Ok(LinkKind::Other)
        } else {
            let name = string_of(&l);
            Err(concat("unknown link kind: ", name.as_str()))
        }
    }
}

impl core::str::FromStr for LinkKind {
    type Err = String;

    fn from_str(s: &str) -> (r: Result<LinkKind, String>)
        ensures
            match link_kind_named(lower(s@)) {
                Some(k) => r == Ok::<LinkKind, String>(k),
                None => r matches Err(m) && m@ == "unknown link kind: "@ + lower(s@),
            },
    {
        LinkKind::parse(s)
    }
}

/// Preference when auto-selecting among discovered endpoints.
#[derive(Debug, Clone, Copy, PartialEq, Eq, Structural)]
pub enum LinkPrefer {
    /// Prefer any working endpoint; USB first, then Bluetooth.
    Auto,
    /// Prefer USB serial endpoints.
    Usb,
    /// Prefer Bluetooth RFCOMM endpoints.
    Bluetooth,
}

impl Default for LinkPrefer {
    fn default() -> (r: Self)
        ensures
            r == LinkPrefer::Auto,
    {
        LinkPrefer::Auto
    }
}

pub open spec fn link_prefer_text(p: LinkPrefer) -> Seq<char> {
    match p {
        LinkPrefer::Auto => "auto"@,
        LinkPrefer::Usb => "usb"@,
        LinkPrefer::Bluetooth => "bluetooth"@,
    }
}

pub open spec fn link_prefer_named(l: Seq<char>) -> Option<LinkPrefer> {
    if l == "auto"@ {
        Some(LinkPrefer::Auto)
    } else if l == "usb"@ || l == "wired"@ {
        Some(LinkPrefer::Usb)
    } else if l == "bluetooth"@ || l == "bt"@ || l == "spp"@ {
        Some(LinkPrefer::Bluetooth)
    } else {
        None
    }
}

impl LinkPrefer {
    /// The name this preference displays as.
    pub fn as_str(self) -> (r: &'static str)
        ensures
            r@ == link_prefer_text(self),
    {
        match self {
            LinkPrefer::Auto => "auto",
            LinkPrefer::Usb => "usb",
            LinkPrefer::Bluetooth => "bluetooth",
        }
    }

    /// Parses a preference name, ignoring ASCII case.
    pub fn parse(s: &str) -> (r: Result<LinkPrefer, String>)
        ensures
            match link_prefer_named(lower(s@)) {
                Some(p) => r == Ok::<LinkPrefer, String>(p),
                None => r matches Err(m) && m@ == "unknown prefer: "@ + lower(s@)
                    + " (auto|usb|bluetooth)"@,
            },
    {
        let l = lower_of(&chars_of(s));
        if is_text(&l, "auto") {
            Ok(LinkPrefer::Auto)
        } else if is_text(&l, "usb") || is_text(&l, "wired") {
            Ok(LinkPrefer::Usb)
        } else if is_text(&l, "bluetooth") || is_text(&l, "bt") || is_text(&l, "spp") {
            Ok(LinkPrefer::Bluetooth)
        } else {
            let name = string_of(&l);
            let mut m = concat("unknown prefer: ", name.as_str());
            push_str(&mut m, " (auto|usb|bluetooth)");
            Err(m)
        }
    }
}

impl core::str::FromStr for LinkPrefer {
    type Err = String;

    fn from_str(s: &str) -> (r: Result<LinkPrefer, String>)
        ensures
            match link_prefer_named(lower(s@)) {
                Some(p) => r == Ok::<LinkPrefer, String>(p),
                None => r matches Err(m) && m@ == "unknown prefer: "@ + lower(s@)
                    + " (auto|usb|bluetooth)"@,
            },
    {
        LinkPrefer::parse(s)
    }
}

/// Vehicle bus tag for capture and transport metadata.
///
/// A tag is always recorded. Single-bus adapters use [`BusTag::Hs`] or
/// [`BusTag::Unknown`]. Dual-bus adapters may tag [`BusTag::Ms`] when MS-CAN
/// is selected.
#[derive(Debug, Clone, Copy, PartialEq, Eq, Hash, Structural)]
pub enum BusTag {
    /// High-speed CAN (typical powertrain OBD).
    Hs,
    /// Medium-speed CAN (Ford body modules; needs capable adapter).
    Ms,
    /// Bus is not known or not applicable.
    Unknown,
}

impl Default for BusTag {
    fn default() -> (r: Self)
        ensures
            r == BusTag::Unknown,
    {
        BusTag::Unknown
    }
}

pub open spec fn bus_tag_text(b: BusTag) -> Seq<char> {
    match b {
        BusTag::Hs => "hs"@,
        BusTag::Ms => "ms"@,
        BusTag::Unknown => "unknown"@,
    }
}

pub open spec fn bus_tag_named(l: Seq<char>) -> Option<BusTag> {
    if l == "hs"@ || l == "hscan"@ || l == "hs-can"@ {
        Some(BusTag::Hs)
    } else if l == "ms"@ || l == "mscan"@ || l == "ms-can"@ {
        Some(BusTag::Ms)
    } else if l == "unknown"@ || l.len() == 0 {
        Some(BusTag::Unknown)
    } else {
        None
    }
}

/// The bus that follows `b` when cycling HS → MS → unknown → HS.
pub open spec fn bus_after(b: BusTag) -> BusTag {
    match b {
        BusTag::Hs => BusTag::Ms,
        BusTag::Ms => BusTag::Unknown,
        BusTag::Unknown => BusTag::Hs,
    }
}

impl BusTag {
    /// Short label for TUI and logs.
    pub fn as_str(self) -> (r: &'static str)
        ensures
            r@ == bus_tag_text(self),
    {
        match self {
            BusTag::Hs => "hs",
            BusTag::Ms => "ms",
            BusTag::Unknown => "unknown",
        }
    }

    /// Parses a bus tag name, ignoring ASCII case; the empty name is unknown.
    pub fn parse(s: &str) -> (r: Result<BusTag, String>)
        ensures
            match bus_tag_named(lower(s@)) {
                Some(b) => r == Ok::<BusTag, String>(b),
                None => r matches Err(m) && m@ == "unknown bus tag: "@ + lower(s@),
            },
    {
        let l = lower_of(&chars_of(s));
        if is_text(&l, "hs") || is_text(&l, "hscan") || is_text(&l, "hs-can") {
            Ok(BusTag::Hs)
        } else if is_text(&l, "ms") || is_text(&l, "mscan") || is_text(&l, "ms-can") {
            Ok(BusTag::Ms)
        } else if is_text(&l, "unknown") || l.len() == 0 {
            Ok(BusTag::Unknown)
        } else {
            let name = string_of(&l);
            Err(concat("unknown bus tag: ", name.as_str()))
        }
    }

    /// The next bus in the HS → MS → unknown → HS cycle.
    pub fn cycled(self) -> (r: BusTag)
        ensures
            r == bus_after(self),
    {
        match self {
            BusTag::Hs => BusTag::Ms,
            BusTag::Ms => BusTag::Unknown,
            BusTag::Unknown => BusTag::Hs,
        }
    }
}

impl core::str::FromStr for BusTag {
    type Err = String;

    fn from_str(s: &str) -> (r: Result<BusTag, String>)
        ensures
            match bus_tag_named(lower(s@)) {
                Some(b) => r == Ok::<BusTag, String>(b),
                None => r matches Err(m) && m@ == "unknown bus tag: "@ + lower(s@),
            },
    {
        BusTag::parse(s)
    }
}

/// Cycling the bus three times returns to the starting bus.
pub proof fn lemma_bus_cycle_period(b: BusTag)
    ensures
        bus_after(bus_after(bus_after(b))) == b,
        bus_after(b) != b,
{
}

/// Every tag's label parses back to the same tag.
pub proof fn lemma_bus_tag_text_parses(b: BusTag)
    ensures
        bus_tag_named(lower(bus_tag_text(b))) == Some(b),
{
    reveal_strlit("hs");
    reveal_strlit("ms");
    reveal_strlit("unknown");
    reveal_strlit("hscan");
    reveal_strlit("hs-can");
    reveal_strlit("mscan");
    reveal_strlit("ms-can");
    assert(lower(bus_tag_text(b)) =~= bus_tag_text(b));
    match b {
        BusTag::Hs => {},
        BusTag::Ms => {
            assert("ms"@[0] != "hs"@[0]);
            assert("ms"@ != "hs"@ && "ms"@ != "hscan"@ && "ms"@ != "hs-can"@);
        },
        BusTag::Unknown => {
            assert("unknown"@ != "hs"@ && "unknown"@ != "hscan"@ && "unknown"@ != "hs-can"@);
            assert("unknown"@ != "ms"@ && "unknown"@ != "mscan"@ && "unknown"@ != "ms-can"@);
        },
    }
}

/// Every link kind's label parses back to the same kind.
pub proof fn lemma_link_kind_text_parses(k: LinkKind)
    ensures
        link_kind_named(lower(link_kind_text(k))) == Some(k),
{
    reveal_strlit("usb");
    reveal_strlit("bluetooth");
    reveal_strlit("other");
    reveal_strlit("usb_serial");
    reveal_strlit("wired");
    reveal_strlit("serial");
    reveal_strlit("bt");
    reveal_strlit("spp");
    reveal_strlit("rfcomm");
    reveal_strlit("bluetooth_spp");
    reveal_strlit("auto");
    assert(lower(link_kind_text(k)) =~= link_kind_text(k));
    match k {
        LinkKind::UsbSerial => {},
        LinkKind::BluetoothSpp => {
            assert("bluetooth"@ != "usb"@ && "bluetooth"@ != "usb_serial"@ && "bluetooth"@
                != "wired"@ && "bluetooth"@ != "serial"@);
        },
        LinkKind::Other => {
            assert("other"@[0] != "wired"@[0]);
            assert("other"@ != "usb"@ && "other"@ != "usb_serial"@ && "other"@ != "wired"@
                && "other"@ != "serial"@);
            assert("other"@ != "bluetooth"@ && "other"@ != "bt"@ && "other"@ != "spp"@
                && "other"@ != "rfcomm"@ && "other"@ != "bluetooth_spp"@);
        },
    }
}

/// Every preference's label parses back to the same preference.
pub proof fn lemma_link_prefer_text_parses(p: LinkPrefer)
    ensures
        link_prefer_named(lower(link_prefer_text(p))) == Some(p),
{
    reveal_strlit("auto");
    reveal_strlit("usb");
    reveal_strlit("bluetooth");
    reveal_strlit("wired");
    reveal_strlit("bt");
    reveal_strlit("spp");
    assert(lower(link_prefer_text(p)) =~= link_prefer_text(p));
}

/// Adapter capability flags discovered at init.
#[derive(Debug, Clone)]
pub struct AdapterCapabilities {
    /// Adapter responds to ELM/STN AT commands.
    pub elm_compatible: bool,
    /// Adapter reports STN firmware (better multi-protocol support).
    pub stn: bool,
    /// Adapter can address MS-CAN (Ford dual-bus).
    pub ms_can: bool,
    /// Host link: USB serial or Bluetooth SPP.
    pub link: LinkKind,
    /// Free-text adapter identity (ATI / STDI).
    pub identity: String,
    /// Active protocol string from ATDP if known.
    pub protocol: String,
}

impl Default for AdapterCapabilities {
    fn default() -> (r: Self)
        ensures
            !r.elm_compatible && !r.stn && !r.ms_can,
            r.link == LinkKind::Other,
            r.identity@.len() == 0,
            r.protocol@.len() == 0,
    {
        AdapterCapabilities {
            elm_compatible: false,
            stn: false,
            ms_can: false,
            link: LinkKind::Other,
            identity: String::new(),
            protocol: String::new(),
        }
    }
}

/// The status-line summary of a set of capabilities.
pub open spec fn summary_text(c: AdapterCapabilities) -> Seq<char> {
    let kind = if c.stn {
        "STN"@
    } else if c.elm_compatible {
        "ELM"@
    } else {
        "unknown"@
    };
    let ms = if c.ms_can {
        "MS-CAN: yes"@
    } else {
        "MS-CAN: no"@
    };
    kind + " · "@ + link_kind_text(c.link) + " · "@ + ms + " · "@ + c.identity@
}

impl AdapterCapabilities {
    /// An equal copy.
    pub fn duplicate(&self) -> (r: Self)
        ensures
            r == *self,
    {
        AdapterCapabilities {
            elm_compatible: self.elm_compatible,
            stn: self.stn,
            ms_can: self.ms_can,
            link: self.link,
            identity: self.identity.clone(),
            protocol: self.protocol.clone(),
        }
    }

    /// Human summary for TUI status line.
    pub fn summary(&self) -> (r: String)
        ensures
            r@ == summary_text(*self),
    {
        let kind = if self.stn {
            "STN"
        } else if self.elm_compatible {
            "ELM"
        } else {
            "unknown"
        };
        let ms = if self.ms_can {
            "MS-CAN: yes"
        } else {
            "MS-CAN: no"
        };
        let mut r = owned(kind);
        push_str(&mut r, " · ");
        push_str(&mut r, self.link.as_str());
        push_str(&mut r, " · ");
        push_str(&mut r, ms);
        push_str(&mut r, " · ");
        push_str(&mut r, self.identity.as_str());
        r
    }
}

} // verus!
