//! Health monitoring for a fleet of network devices: debounced status
//! tracking, batched failure alerts, an append-only status journal and the
//! device registry that feeds them.

pub mod text;
pub mod keyed;
pub mod models;
pub mod registry;
pub mod tracker;
pub mod email;
pub mod journal;
pub mod sensors;
pub mod monitor;
pub mod export;
