//! Evaluation of a traffic-allowlisting defense against volumetric attacks on
//! name servers.
//!
//! The library holds the logic: canonical network keys, attacker traffic
//! synthesis, the four-way merge-join of network-keyed traffic maps, the
//! per-network classification into true/false positives/negatives, the
//! parameter grid, and the reductions over stored results.

pub mod allowlist;
pub mod attack;
pub mod catchment;
pub mod classify;
pub mod config;
pub mod evaluate;
pub mod evasion;
pub mod grid;
pub mod join;
pub mod netflow;
pub mod network;
pub mod window;
