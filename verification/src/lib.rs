//! Verified core of a scale-to-zero controller: the per-packet classifier,
//! the tables it shares with the control plane, and the control plane's
//! decisions (registry reconciliation, wake handling, scaling).

pub mod classifier;
mod clock;
pub mod consumer;
pub mod index;
pub mod ipmap;
pub mod laws;
pub mod model;
pub mod parse;
pub mod registry;
pub mod ring;
pub mod scaler;
pub mod sync;
pub mod table;
pub mod watcher;
