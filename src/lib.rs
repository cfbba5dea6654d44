//! Discovery of hosts that expose SMB shares: target expansion, liveness
//! selection, share record construction and bounded dispatch of host work.

pub mod model;
pub mod network;
pub mod scan;
pub mod shares;
pub mod targets;
