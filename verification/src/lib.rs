//! A LoRa gateway mesh relay library.
//!
//! The library covers the mesh relay engine of a two-tier LoRaWAN
//! deployment: the on-air binary packet format with its MIC and payload
//! encryption scheme, the forwarding state machine, the duplicate
//! suppression cache, the uplink-context store, the mesh frequency hopper
//! and the mapping tables.  Radio and forwarder transports live outside
//! the library; they hand plain values in and take plain values back.

pub mod aes128;
pub mod error;
pub mod cache;
pub mod config;
pub mod helpers;
pub mod mesh;
pub mod packets;
