//! The fleet log plugin's logic: reading RFC 5424 lines and node beacons,
//! and the decisions of the deduplicating log ring.

pub mod parse;
pub mod beacon;
pub mod ring;
