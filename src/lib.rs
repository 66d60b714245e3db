//! Turns a road network extract into a flat list of routable edges, one per
//! pair of consecutive points of each road, and maps those edges to and from
//! the rows of a relational table.
pub mod error;
pub mod extract;
pub mod network;
pub mod store;
