//! Decision logic of a bridge between Lidarr's wanted list and slskd:
//! candidate grouping and ranking, the blacklist that remembers failed
//! matches, path staging, and the per-album state machine.

pub mod text;
pub mod slskd;
pub mod scorer;
pub mod blacklist;
pub mod config;
pub mod lidarr;
pub mod staging;
pub mod sync;
