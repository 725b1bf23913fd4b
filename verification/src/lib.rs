//! Fleet console supervision: inventory snapshots and their deltas, the
//! credential-lease policy that gates each inventory fetch, and the per-tick
//! plan that keeps one console session alive per tracked server.

pub mod cli;
pub mod effects;
pub mod fleet;
pub mod servers;
pub mod tailer;
pub mod vault;
