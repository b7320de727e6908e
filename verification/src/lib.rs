//! Verified core of a kernel-event forensics pipeline.
//!
//! The library holds the logic of the pipeline: the bounded correlation
//! store that pairs an entry event with its later exit event, the probe
//! handler decisions, the rendering of log records and their JSON wire
//! form, the distributor that fans records out to subscribers, and the
//! all-or-nothing startup decision of the relay. The host program around
//! it does the kernel attachment and the network transport and hands the
//! library plain values.

pub mod distributor;
pub mod probes;
pub mod relay;
pub mod session;
pub mod store;
pub mod text;
pub mod wire;
