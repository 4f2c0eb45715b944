//! The configuration data the engine works from.
//!
//! Loading and parsing configuration files is the surrounding process's
//! work; the library only holds the values the relay logic reads.

use vstd::prelude::*;

use crate::aes128::Aes128Key;

verus! {

/// Logging settings of the process.
pub struct Logging {
    pub level: String,
    pub log_to_syslog: bool,
}

/// The mesh settings: keys, role, hop budget, channels and transmit
/// parameters.
pub struct Mesh {
    /// The root key both mesh keys are derived from.
    pub root_key: Aes128Key,
    /// A legacy explicit signing key; honored when non-zero.
    pub signing_key: Aes128Key,
    /// The mesh frequencies the hopper cycles through.
    pub frequencies: Vec<u32>,
    /// The data rate of mesh transmissions.
    pub data_rate: DataRate,
    /// The EIRP of mesh transmissions.
    pub tx_power: i32,
    /// The proxy endpoints a Border Gateway exposes to the forwarder.
    pub proxy_api: ProxyApi,
    /// Whether this node is a Border Gateway.
    pub border_gateway: bool,
    /// Whether a Border Gateway drops uplinks received on its own device
    /// radio.
    pub border_gateway_ignore_direct_uplinks: bool,
    /// The hop count above which a frame is no longer relayed.
    pub max_hop_count: u8,
}

/// The endpoints of the two radio concentrators.
pub struct Backend {
    pub concentratord: Concentratord,
    pub mesh_concentratord: Concentratord,
}

/// The two endpoints of one concentrator.
pub struct Concentratord {
    pub event_url: String,
    pub command_url: String,
}

/// The endpoints the Border Gateway binds for the forwarder.
pub struct ProxyApi {
    pub event_bind: String,
    pub command_bind: String,
}

/// The mapping tables between wire indexes and radio parameters.
pub struct Mappings {
    /// Channel index to frequency.
    pub channels: Vec<u32>,
    /// TX power index to EIRP.
    pub tx_power: Vec<i32>,
    /// Data-rate index to modulation parameters.
    pub data_rates: Vec<DataRate>,
}

/// One canonical data rate.
#[derive(Debug, Clone, Copy, Eq)]
pub struct DataRate {
    pub modulation: Modulation,
    pub spreading_factor: u8,
    pub bandwidth: u32,
    pub code_rate: Option<CodeRate>,
    pub bitrate: u32,
}

impl PartialEq for DataRate {
    fn eq(&self, other: &DataRate) -> (r: bool) {
        let code_rate_eq = match (&self.code_rate, &other.code_rate) {
            (Option::None, Option::None) => true,
            (Option::Some(a), Option::Some(b)) => *a == *b,
            _ => false,
        };
        self.modulation == other.modulation && self.spreading_factor == other.spreading_factor
            && self.bandwidth == other.bandwidth && code_rate_eq && self.bitrate == other.bitrate
    }
}

impl vstd::std_specs::cmp::PartialEqSpecImpl for DataRate {
    open spec fn obeys_eq_spec() -> bool {
        true
    }

    open spec fn eq_spec(&self, other: &DataRate) -> bool {
        *self == *other
    }
}

/// The modulation family of a data rate.
#[derive(Debug, Clone, Copy, PartialEq, Eq, Structural)]
#[allow(non_camel_case_types)]
pub enum Modulation {
    LORA,
    FSK,
}

/// The closed enumeration of LoRa code rates.
#[derive(Debug, Clone, Copy, PartialEq, Eq, Structural)]
pub enum CodeRate {
    Cr45,
    Cr46,
    Cr47,
    Cr48,
    Cr38,
    Cr26,
    Cr14,
    Cr16,
    Cr56,
    CrLi45,
    CrLi46,
    CrLi48,
}

/// The whole configuration the library reads.
pub struct Configuration {
    pub logging: Logging,
    pub mesh: Mesh,
    pub backend: Backend,
    pub mappings: Mappings,
}

} // verus!
