//! Decoding and dispatch logic of a relay from a LoRaWAN uplink stream to
//! measurement sinks.

pub mod api;
pub mod config;
pub mod connection;
pub mod decimal;
pub mod dispatch;
pub mod influxdb;
pub mod ordered;
pub mod payload;
pub mod readback;
pub mod reading;
pub mod uplink;
