//! Verified core of a minimal LV2 plugin host.
//!
//! The library keeps the bookkeeping of a host: which plugin slots exist, which
//! names refer to them, which slots were released and may be reused, how the
//! ports of a plugin are classified and wired, and which bytes are written into
//! the atom buffer that event ports read from.
pub mod atom;
pub mod error;
pub mod host;
pub mod laws;
pub mod port;

pub use atom::{empty_sequence, test_midi_atom};
pub use error::AddPluginError;
pub use host::{HostView, Lv2Host, Plugin, PluginView, SheetLayout};
pub use port::{
    classify_port, connection_plan, create_ports, Connection, CreatePortsRes, Port, PortFacts,
    PortType,
};
