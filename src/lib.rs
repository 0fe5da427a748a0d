//! A connectionless relay core: a table of live peers keyed by address,
//! the fan-out policy that picks the receivers of each datagram, and the
//! expiry sweep that drops peers gone silent.
pub mod address;
pub mod laws;
pub mod peer_table;
pub mod relay;

pub use address::PeerAddr;
pub use peer_table::PeerTable;
pub use relay::{Relay, RelayLoop};
