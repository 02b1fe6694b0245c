//! `obd_io`: OBD-II transport decisions, SAE J1979 decoding, vehicle
//! profiles and the capture format, with their contracts.
//!
//! Default mode is read-only: clearing trouble codes is refused unless writes
//! were enabled on the session.
use vstd::prelude::*;

pub mod bus;
pub mod capture;
pub mod dashboard;
pub mod error;
pub mod j1979;
pub mod modules;
pub mod order;
pub mod profile;
pub mod sample;
pub mod session;
pub mod text;
pub mod transport;

pub use bus::{AdapterCapabilities, BusTag};
pub use capture::{CaptureSession, SessionMeta, SignalSample, CAPTURE_FORMAT_VERSION};
pub use error::Error;
pub use j1979::{Dtc, DtcStatus, LiveValue, PidDef};
pub use profile::{generic_profile, VehicleProfile};
pub use session::VehicleSession;
pub use transport::{ElmConfig, Frame, FrameDir, ReplayTransport, Transport};

verus! {

} // verus!
