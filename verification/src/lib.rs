//! Transceiver monitoring for a network switch.
//!
//! The library holds the decisions of the transceiver daemon: how module
//! readings become database rows, how latched flags are tracked, how a port is
//! brought up, and how the daemon itself is started and stopped. Everything
//! that touches a module, a database or the clock goes through the traits
//! [`hal::Hal`], [`hal::SfpHandle`] and [`db::DbTable`].
//!
//! What holds of several functions together, or of all answers that the outside can
//! give, stands in proof functions: next to the functions where it is about a few of
//! them, and else in the modules named after laws and in [`dom::outcomes`],
//! [`dom::rounds`] and [`dom::limits`].

pub mod assoc;
pub mod bridge;
pub mod clock;
pub mod cmis;
pub mod daemon;
pub mod daemon_laws;
pub mod db;
pub mod dom;
pub mod env;
pub mod error;
pub mod hal;
pub mod json;
pub mod mock;
pub mod mock_hal;
pub mod mock_laws;
pub mod mock_sff;
pub mod port;
pub mod record_laws;
pub mod sff_api;
pub mod sff_laws;
pub mod sff_mgr;
pub mod tables;
pub mod text;
pub mod text_laws;
