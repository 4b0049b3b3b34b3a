//! An EtherCAT master protocol engine.
//!
//! The engine discovers the slave devices on a segment, drives their state
//! machine, lays out cyclic process data, performs mailbox (SDO) parameter
//! access, and keeps a distributed-clock reference. All protocol decisions
//! and wire framing live here and are verified; moving raw Ethernet frames
//! on and off the physical interface is the caller's job, behind the
//! `FrameLink` trait.
//!
//! - `wire`: datagram framing and little-endian field encoding
//! - `idx`: the telegram multiplexer's identifier pool
//! - `state`: the device state machine's values and order
//! - `slave`: slave and group tables and the process-data layout
//! - `esi`: the EEPROM scratch cache
//! - `mailbox`: SDO framing over the mailbox channel
//! - `error`: the error taxonomy and the self-draining event log
//! - `master`: the context owning it all, and every master operation

pub mod error;
pub mod esi;
pub mod idx;
pub mod mailbox;
pub mod master;
pub mod slave;
pub mod state;
pub mod wire;

pub use esi::ESIBuf;
pub use esi::ESIMap;
pub use master::Context;
pub use master::FrameLink;
pub use idx::IdxStack;
pub use slave::Group;
pub use slave::Slave;
pub use error::ERing;
pub use error::ErrorGenerator;
pub use error::ErrorIterator;
pub use error::EtherCatError;
pub use error::InitError;
pub use state::EtherCatState;
pub use wire::Datagram;
