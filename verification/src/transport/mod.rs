//! Transport abstraction for live adapters and replay.
pub mod connect;
pub mod link;
pub mod replay;
pub mod serial;

pub use connect::{format_endpoint_list, sort_endpoints, ConnectOptions};
pub use link::{classify_path, normalize_bt_mac, AdapterEndpoint};
pub use replay::ReplayTransport;
pub use serial::ElmConfig;

use crate::bus::{AdapterCapabilities, BusTag};
use crate::error::Error;
use crate::text::owned;
use vstd::prelude::*;

verus! {

/// A point in time: seconds since the Unix epoch and the nanoseconds within
/// that second.
#[derive(Debug, Clone, Copy, PartialEq, Eq, Structural)]
pub struct Timestamp {
    pub secs: i64,
    pub nanos: u32,
}

/// Reads the system clock through `chrono::Utc::now`, split into
/// `timestamp()` and `timestamp_subsec_nanos()`. Nothing is promised of the
/// value: it is the time of the call.
#[verifier::external_body]
pub fn utc_now() -> (r: Timestamp) {
    let t = chrono::Utc::now();
    Timestamp { secs: t.timestamp(), nanos: t.timestamp_subsec_nanos() }
}

/// Direction of a frame on the wire or in a capture.
#[derive(Debug, Clone, Copy, PartialEq, Eq, Structural)]
pub enum FrameDir {
    Tx,
    Rx,
}

/// One request or response unit (AT line or OBD payload text).
#[derive(Debug, Clone)]
pub struct Frame {
    pub ts: Timestamp,
    pub dir: FrameDir,
    pub bus: BusTag,
    /// UTF-8 payload as exchanged with the adapter (no trailing `>` prompt).
    pub data: String,
}

pub struct FrameView {
    pub ts: Timestamp,
    pub dir: FrameDir,
    pub bus: BusTag,
    pub data: Seq<char>,
}

impl View for Frame {
    type V = FrameView;

    open spec fn view(&self) -> FrameView {
        FrameView { ts: self.ts, dir: self.dir, bus: self.bus, data: self.data@ }
    }
}

pub open spec fn frame_views(v: Seq<Frame>) -> Seq<FrameView> {
    v.map_values(|f: Frame| f@)
}

impl Frame {
    /// A transmitted frame, stamped now.
    pub fn tx(bus: BusTag, data: &str) -> (r: Frame)
        ensures
            r.dir == FrameDir::Tx,
            r.bus == bus,
            r.data@ == data@,
    {
        Frame { ts: utc_now(), dir: FrameDir::Tx, bus, data: owned(data) }
    }

    /// A received frame, stamped now.
    pub fn rx(bus: BusTag, data: &str) -> (r: Frame)
        ensures
            r.dir == FrameDir::Rx,
            r.bus == bus,
            r.data@ == data@,
    {
        Frame { ts: utc_now(), dir: FrameDir::Rx, bus, data: owned(data) }
    }
}

/// The bus-selection rule every adapter shares: MS-CAN is refused unless the
/// adapter reports it.
pub fn check_bus_supported(caps: &AdapterCapabilities, bus: BusTag, refusal: &str) -> (r: Result<
    (),
    Error,
>)
    ensures
        (bus == BusTag::Ms && !caps.ms_can) ==> (r matches Err(Error::Protocol(m)) && m@
            == refusal@),
        !(bus == BusTag::Ms && !caps.ms_can) ==> r is Ok,
{
    if bus == BusTag::Ms && !caps.ms_can {
        return Err(Error::Protocol(owned(refusal)));
    }
    Ok(())
}

/// Bidirectional adapter or replay source.
pub trait Transport: Sized {
    /// Open path or source description for status UI.
    fn name(&self) -> &str;

    /// Capabilities after successful init (empty before init).
    fn capabilities(&self) -> &AdapterCapabilities;

    /// Active bus for subsequent commands.
    fn active_bus(&self) -> BusTag;

    /// Select bus when the adapter supports dual-bus. Default rejects MS-CAN
    /// when the adapter does not report it, and accepts any other bus.
    fn select_bus(&mut self, bus: BusTag) -> (r: Result<(), Error>)
        default_ensures
            *final(self) == *old(self),
            exists|c: &AdapterCapabilities|
                #[trigger] call_ensures(Self::capabilities, (&*old(self),), c) && (r is Err <==> (bus
                    == BusTag::Ms && !c.ms_can)),
            r is Err ==> (r matches Err(Error::Protocol(m)) && m@ == "adapter does not support MS-CAN"@),
    {
        check_bus_supported(self.capabilities(), bus, "adapter does not support MS-CAN")
    }

    /// Initialize the adapter (ATZ sequence or no-op for replay).
    fn init(&mut self) -> Result<(), Error>;

    /// Send a command and wait for a full response (without `>`).
    fn transact(&mut self, command: &str) -> Result<String, Error>;
}

} // verus!
