//! Decisions of a proxy and management server for Node-RED: the event log
//! kept per automation, latency measurements, the routing of UDP messages
//! and the transfer of automations ("flows") between areas.

pub mod text;
pub mod config;
pub mod flows;
pub mod transfer;
pub mod analysis;
pub mod db;
pub mod latency;
pub mod proxy;
pub mod responses;
pub mod laws;
