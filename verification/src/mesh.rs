//! The mesh relay engine.
//!
//! The engine decides, for every received frame, whether to drop it,
//! unwrap and hand it to the forwarder, encapsulate and relay it, execute
//! it, or re-transmit it with an incremented hop count.  The surrounding
//! process performs the radio and forwarder transport and hands the
//! engine plain values; every decision here is a function of the state
//! and the input.

use vstd::prelude::*;

use std::collections::HashMap;

use vstd::std_specs::cmp::PartialEqSpec;

use crate::aes128::{spec_encryption_key, spec_signing_key, Aes128Key};
use crate::cache::{Cache, PayloadCache};
use crate::config::{Configuration, DataRate};
use crate::error::Error;
use crate::packets::{
    spec_packet_mic, Command, Event, MeshPacket, MeshPacketView, MHDR, Payload, PayloadType,
    PayloadView, RelayPath, UplinkMetadata, UplinkPayload,
};

verus! {

/// The context prefix that marks a relayed downlink: three fixed bytes,
/// then the relay id and the big-endian uplink id.
pub open spec fn spec_ctx_prefix() -> Seq<u8> {
    seq![1u8, 2u8, 3u8]
}

/// The capacity of the duplicate-suppression cache.
pub open spec fn spec_payload_cache_size() -> nat {
    64
}

/// The mutable state of the engine: the duplicate-suppression cache, the
/// uplink-context store with its twelve-bit counter, the mesh-channel
/// cursor and the last command timestamp.
pub struct MeshState {
    payload_cache: Cache<PayloadCache>,
    uplink_context: HashMap<u16, Vec<u8>>,
    uplink_id: u16,
    mesh_channel: usize,
    last_command_timestamp: Option<u32>,
}

impl MeshState {
    /// The state keeps its counter in the twelve-bit range and its cache
    /// inside its capacity.
    pub open spec fn wf(&self) -> bool {
        &&& self.spec_uplink_id() <= 4095
        &&& self.spec_cache().wf()
        &&& self.spec_cache().spec_size() == spec_payload_cache_size()
    }

    /// The duplicate-suppression cache.
    pub closed spec fn spec_cache(&self) -> Cache<PayloadCache> {
        self.payload_cache
    }

    /// The uplink-id counter.
    pub closed spec fn spec_uplink_id(&self) -> u16 {
        self.uplink_id
    }

    /// The mesh-channel cursor.
    pub closed spec fn spec_mesh_channel(&self) -> int {
        self.mesh_channel as int
    }

    /// The last command timestamp this relay executed, if any.
    pub closed spec fn spec_last_command_timestamp(&self) -> Option<u32> {
        self.last_command_timestamp
    }

    /// The stored radio context for an uplink id, if any.
    pub closed spec fn spec_context(&self, id: u16) -> Option<Seq<u8>> {
        if self.uplink_context@.contains_key(id) {
            Some(self.uplink_context@[id]@)
        } else {
            None
        }
    }

    /// Creates a fresh engine state: an empty cache of capacity 64, an
    /// empty context store, counter and cursor at zero, no command
    /// timestamp seen.
    pub fn new() -> (r: MeshState)
        ensures
            r.wf(),
            r.spec_uplink_id() == 0,
            r.spec_mesh_channel() == 0,
            r.spec_last_command_timestamp() is None,
            forall|id: u16| r.spec_context(id) is None,
            r.spec_cache()@ == Seq::<PayloadCache>::empty(),
    {
        broadcast use vstd::std_specs::hash::group_hash_axioms;

        let r = MeshState {
            payload_cache: Cache::new(64),
            uplink_context: HashMap::new(),
            uplink_id: 0,
            mesh_channel: 0,
            last_command_timestamp: None,
        };
        r
    }

    /// The uplink id that follows another: one more, wrapping to zero
    /// past 4095.
    pub open spec fn spec_next_uplink_id(id: u16) -> u16 {
        if id + 1 > 4095 {
            0
        } else {
            (id + 1) as u16
        }
    }

    /// Advances the twelve-bit uplink-id counter and returns its new
    /// value.
    fn get_uplink_id(&mut self) -> (r: u16)
        requires
            old(self).wf(),
        ensures
            final(self).wf(),
            r == Self::spec_next_uplink_id(old(self).spec_uplink_id()),
            final(self).spec_uplink_id() == r,
            final(self).spec_cache() == old(self).spec_cache(),
            final(self).spec_mesh_channel() == old(self).spec_mesh_channel(),
            final(self).spec_last_command_timestamp() == old(self).spec_last_command_timestamp(),
            forall|id: u16| final(self).spec_context(id) == old(self).spec_context(id),
    {
        self.uplink_id = self.uplink_id + 1;
        if self.uplink_id > 4095 {
            self.uplink_id = 0;
        }
        self.uplink_id
    }

    /// Stores a radio context under a fresh uplink id and returns the
    /// id.  An id that wraps around overwrites the context stored 4096
    /// allocations earlier.
    pub fn store_uplink_context(&mut self, ctx: &[u8]) -> (r: u16)
        requires
            old(self).wf(),
        ensures
            final(self).wf(),
            r == Self::spec_next_uplink_id(old(self).spec_uplink_id()),
            final(self).spec_uplink_id() == r,
            final(self).spec_context(r) == Some(ctx@),
            forall|id: u16| id != r ==> final(self).spec_context(id) == old(self).spec_context(id),
            final(self).spec_cache() == old(self).spec_cache(),
            final(self).spec_mesh_channel() == old(self).spec_mesh_channel(),
            final(self).spec_last_command_timestamp() == old(self).spec_last_command_timestamp(),
    {
        broadcast use vstd::std_specs::hash::group_hash_axioms;

        let uplink_id = self.get_uplink_id();
        let mut v: Vec<u8> = Vec::new();
        crate::packets::push_bytes(&mut v, ctx);
        proof {
            assert(v@ =~= ctx@);
        }
        self.uplink_context.insert(uplink_id, v);
        uplink_id
    }

    /// Returns the stored radio context for an uplink id; an id with no
    /// stored context is refused.
    pub fn get_uplink_context(&self, uplink_id: u16) -> (r: Result<Vec<u8>, Error>)
        ensures
            match self.spec_context(uplink_id) {
                Some(c) => r matches Ok(v) && v@ == c,
                None => r == Err::<Vec<u8>, Error>(Error::NoUplinkContext),
            },
    {
        broadcast use vstd::std_specs::hash::group_hash_axioms;

        match self.uplink_context.get(&uplink_id) {
            Some(v) => {
                let mut out: Vec<u8> = Vec::new();
                crate::packets::push_bytes(&mut out, v.as_slice());
                proof {
                    assert(out@ =~= self.spec_context(uplink_id)->Some_0);
                }
                Ok(out)
            },
            None => Err(Error::NoUplinkContext),
        }
    }

    /// The mesh-channel cursor that follows another for a table of the
    /// given length: one more, wrapping to zero at the end of the table.
    pub open spec fn spec_next_channel(c: int, len: int) -> int {
        if c + 1 >= len {
            0
        } else {
            c + 1
        }
    }

    /// Advances the round-robin cursor over the configured mesh
    /// frequencies and returns the frequency under the new cursor.  With
    /// no configured frequencies the call is refused and the cursor does
    /// not move.
    pub fn get_mesh_frequency(&mut self, conf: &Configuration) -> (r: Result<u32, Error>)
        requires
            old(self).wf(),
        ensures
            final(self).wf(),
            conf.mesh.frequencies@.len() == 0 ==> r == Err::<u32, Error>(Error::NoMeshFrequencies)
                && *final(self) == *old(self),
            conf.mesh.frequencies@.len() > 0 ==> {
                let c = Self::spec_next_channel(
                    old(self).spec_mesh_channel(),
                    conf.mesh.frequencies@.len() as int,
                );
                &&& final(self).spec_mesh_channel() == c
                &&& 0 <= c < conf.mesh.frequencies@.len()
                &&& r == Ok::<u32, Error>(conf.mesh.frequencies@[c])
            },
            final(self).spec_cache() == old(self).spec_cache(),
            final(self).spec_uplink_id() == old(self).spec_uplink_id(),
            final(self).spec_last_command_timestamp() == old(self).spec_last_command_timestamp(),
            forall|id: u16| final(self).spec_context(id) == old(self).spec_context(id),
    {
        if conf.mesh.frequencies.len() == 0 {
            return Err(Error::NoMeshFrequencies);
        }
        if self.mesh_channel >= usize::MAX - 1 {
            // keep the increment below from overflowing on a cursor that
            // was never wrapped by a table this large
            self.mesh_channel = 0;
        } else {
            self.mesh_channel = self.mesh_channel + 1;
        }
        if self.mesh_channel >= conf.mesh.frequencies.len() {
            self.mesh_channel = 0;
        }
        Ok(conf.mesh.frequencies[self.mesh_channel])
    }

    /// Accepts a command timestamp: it must lie strictly after the last
    /// one this relay executed, and becomes the new last timestamp.
    pub fn check_command_timestamp(&mut self, timestamp: u32) -> (r: Result<(), Error>)
        requires
            old(self).wf(),
        ensures
            final(self).wf(),
            match old(self).spec_last_command_timestamp() {
                Some(ts) => if ts >= timestamp {
                    r == Err::<(), Error>(Error::TimestampNotIncremented) && *final(self) == *old(
                        self,
                    )
                } else {
                    r is Ok && final(self).spec_last_command_timestamp() == Some(timestamp)
                },
                None => r is Ok && final(self).spec_last_command_timestamp() == Some(timestamp),
            },
            final(self).spec_cache() == old(self).spec_cache(),
            final(self).spec_uplink_id() == old(self).spec_uplink_id(),
            final(self).spec_mesh_channel() == old(self).spec_mesh_channel(),
            forall|id: u16| final(self).spec_context(id) == old(self).spec_context(id),
    {
        if let Some(ts) = self.last_command_timestamp {
            if ts >= timestamp {
                return Err(Error::TimestampNotIncremented);
            }
        }
        self.last_command_timestamp = Some(timestamp);
        Ok(())
    }

    /// Tests and records a packet fingerprint in the
    /// duplicate-suppression cache: true exactly when the packet was not
    /// seen among the last 64 fingerprints.
    pub fn cache_add(&mut self, entry: PayloadCache) -> (r: bool)
        requires
            old(self).wf(),
        ensures
            final(self).wf(),
            r == !old(self).spec_cache().spec_contains(entry),
            !r ==> final(self).spec_cache()@ == old(self).spec_cache()@,
            r ==> final(self).spec_cache().spec_contains(entry),
            final(self).spec_uplink_id() == old(self).spec_uplink_id(),
            final(self).spec_mesh_channel() == old(self).spec_mesh_channel(),
            final(self).spec_last_command_timestamp() == old(self).spec_last_command_timestamp(),
            forall|id: u16| final(self).spec_context(id) == old(self).spec_context(id),
    {
        let r = self.payload_cache.add(entry);
        proof {
            if r {
                let s = self.payload_cache@;
                assert(s[s.len() - 1].eq_spec(&entry));
            }
        }
        r
    }
}

// --- engine inputs and outputs ---

/// What the radio reports with a received frame.
#[derive(Debug)]
pub struct RxInfo {
    pub rssi: i16,
    pub snr: i8,
    pub context: Vec<u8>,
}

/// The transmission parameters a received frame arrived with.
#[derive(Debug)]
pub struct TxInfo {
    pub frequency: u32,
    pub data_rate: DataRate,
}

/// A received frame with its radio metadata, already normalized to
/// plain values by the caller.
#[derive(Debug)]
pub struct UplinkFrame {
    pub phy_payload: Vec<u8>,
    pub rx_info: RxInfo,
    pub tx_info: TxInfo,
}

/// A frame to transmit on the mesh radio, with immediate timing.
#[derive(Debug)]
pub struct MeshTransmit {
    pub phy_payload: Vec<u8>,
    pub frequency: u32,
    pub power: i32,
    pub data_rate: DataRate,
}

/// A downlink to schedule on the device radio: an unwrapped relayed
/// downlink, transmitted after the stored reception it answers.
#[derive(Debug)]
pub struct DeviceDownlink {
    pub phy_payload: Vec<u8>,
    pub frequency: u32,
    pub power: i32,
    pub delay: u8,
    pub data_rate: DataRate,
    pub context: Vec<u8>,
}

/// An unwrapped relayed uplink for the forwarder: the original frame
/// with the mesh metadata folded into it.
#[derive(Debug)]
pub struct RelayedUplink {
    pub phy_payload: Vec<u8>,
    pub frequency: u32,
    pub data_rate: DataRate,
    pub rssi: i16,
    pub snr: i8,
    pub hop_count: u8,
    pub relay_id: [u8; 4],
    pub uplink_id: u16,
    pub context: Vec<u8>,
}

/// An unwrapped mesh event for the forwarder.
#[derive(Debug)]
pub struct MeshEventOut {
    pub relay_id: [u8; 4],
    pub timestamp: u32,
    pub events: Vec<Event>,
}

/// What the engine decides to do with one input.
#[derive(Debug)]
pub enum MeshAction {
    /// Drop the input.
    Drop,
    /// Border Gateway: publish the received uplink to the forwarder
    /// unchanged.
    ProxyUplink,
    /// Border Gateway: publish an unwrapped relayed uplink.
    ProxyRelayedUplink(RelayedUplink),
    /// Border Gateway: publish an unwrapped mesh event.
    ProxyMeshEvent(MeshEventOut),
    /// Transmit a mesh frame on the mesh radio.
    Transmit(MeshTransmit),
    /// Relay Gateway: schedule an unwrapped relayed downlink on the
    /// device radio.
    ScheduleDownlink(DeviceDownlink),
    /// Relay Gateway: execute the commands addressed to this relay and
    /// reply with their outputs as events.
    ExecuteCommands(Vec<Command>),
}

/// The signing key in force: the legacy explicit key when it is
/// non-zero, else the key derived from the root key.
pub open spec fn spec_active_signing_key(conf: &Configuration) -> Seq<u8> {
    if !conf.mesh.signing_key.spec_is_null() {
        conf.mesh.signing_key@
    } else {
        spec_signing_key(conf.mesh.root_key@)
    }
}

/// Picks the signing key in force.
pub fn active_signing_key(conf: &Configuration) -> (r: Aes128Key)
    ensures
        r@ == spec_active_signing_key(conf),
{
    if !conf.mesh.signing_key.is_null() {
        conf.mesh.signing_key
    } else {
        crate::aes128::get_signing_key(conf.mesh.root_key)
    }
}

/// Builds a mesh-radio transmission for a serialized frame: the next
/// hopper frequency, the configured power and data rate, immediate
/// timing.
fn build_mesh_transmit(state: &mut MeshState, conf: &Configuration, phy_payload: Vec<u8>) -> (r:
    Result<MeshTransmit, Error>)
    requires
        old(state).wf(),
    ensures
        final(state).wf(),
        conf.mesh.frequencies@.len() == 0 ==> r == Err::<MeshTransmit, Error>(
            Error::NoMeshFrequencies,
        ),
        conf.mesh.frequencies@.len() > 0 ==> (r matches Ok(t) && t.phy_payload@
            == phy_payload@ && t.frequency == conf.mesh.frequencies@[MeshState::spec_next_channel(
            old(state).spec_mesh_channel(),
            conf.mesh.frequencies@.len() as int,
        )] && t.power == conf.mesh.tx_power && t.data_rate == conf.mesh.data_rate
            && final(state).spec_mesh_channel() == MeshState::spec_next_channel(
            old(state).spec_mesh_channel(),
            conf.mesh.frequencies@.len() as int,
        )),
        r is Err ==> final(state).spec_mesh_channel() == old(state).spec_mesh_channel(),
        final(state).spec_cache() == old(state).spec_cache(),
        final(state).spec_uplink_id() == old(state).spec_uplink_id(),
        final(state).spec_last_command_timestamp() == old(state).spec_last_command_timestamp(),
        forall|id: u16| final(state).spec_context(id) == old(state).spec_context(id),
{
    let frequency = match state.get_mesh_frequency(conf) {
        Ok(v) => v,
        Err(e) => {
            return Err(e);
        },
    };
    Ok(
        MeshTransmit {
            phy_payload,
            frequency,
            power: conf.mesh.tx_power,
            data_rate: conf.mesh.data_rate,
        },
    )
}

// --- device-radio uplinks ---

/// The mesh packet a Relay Gateway wraps a received LoRaWAN uplink in:
/// an uplink payload at hop one, metadata from the reception, a fresh
/// uplink id, and the MIC of the signing key in force.
pub open spec fn spec_wrapped_uplink(
    conf: &Configuration,
    relay_id: Seq<u8>,
    pl: &UplinkFrame,
    uplink_id: u16,
    dr: u8,
    channel: u8,
) -> MeshPacketView {
    let base = MeshPacketView {
        mhdr: MHDR { payload_type: PayloadType::Uplink, hop_count: 1 },
        payload: PayloadView::Uplink(
            crate::packets::UplinkPayloadView {
                metadata: UplinkMetadata {
                    uplink_id,
                    dr,
                    rssi: pl.rx_info.rssi,
                    snr: pl.rx_info.snr,
                    channel,
                },
                relay_id,
                phy_payload: pl.phy_payload@,
            },
        ),
        mic: None,
    };
    MeshPacketView { mic: Some(spec_packet_mic(spec_active_signing_key(conf), base)), ..base }
}

/// Handles a LoRaWAN (non-proprietary) uplink from the device radio.  A
/// Border Gateway publishes it to the forwarder unchanged; a Relay
/// Gateway stores the reception context under a fresh uplink id, wraps
/// the frame in a signed mesh uplink packet and transmits it on the next
/// mesh frequency.
pub fn handle_uplink(
    state: &mut MeshState,
    conf: &Configuration,
    relay_id: &[u8; 4],
    pl: &UplinkFrame,
) -> (r: Result<MeshAction, Error>)
    requires
        old(state).wf(),
    ensures
        final(state).wf(),
        conf.mesh.border_gateway ==> (r matches Ok(a) && a is ProxyUplink && *final(state)
            == *old(state)),
        !conf.mesh.border_gateway ==> {
            let id = MeshState::spec_next_uplink_id(old(state).spec_uplink_id());
            let first_dr = crate::helpers::spec_first_index_dr(
                conf.mappings.data_rates@,
                pl.tx_info.data_rate,
            );
            let first_ch = crate::helpers::spec_first_index_u32(
                conf.mappings.channels@,
                pl.tx_info.frequency,
            );
            &&& (r matches Ok(a) ==> a matches MeshAction::Transmit(t) && (exists|dr: u8, ch: u8|
                {
                    &&& (conf.mappings.data_rates@.len() <= 256 ==> Some(dr as int) == first_dr)
                    &&& (conf.mappings.channels@.len() <= 256 ==> Some(ch as int) == first_ch)
                    &&& t.phy_payload@ == #[trigger] spec_wrapped_uplink(
                        conf,
                        relay_id@,
                        pl,
                        id,
                        dr,
                        ch,
                    ).spec_bytes()
                }) && t.power == conf.mesh.tx_power && t.data_rate == conf.mesh.data_rate
                && conf.mesh.frequencies@.len() > 0 && final(state).spec_uplink_id() == id && final(state).spec_context(id) == Some(pl.rx_info.context@)
                && final(state).spec_mesh_channel() == MeshState::spec_next_channel(
                old(state).spec_mesh_channel(),
                conf.mesh.frequencies@.len() as int,
            ) && t.frequency == conf.mesh.frequencies@[final(state).spec_mesh_channel()])
            &&& (r is Err ==> final(state).spec_mesh_channel() == old(state).spec_mesh_channel())
            &&& ((conf.mappings.data_rates@.len() <= 16 && conf.mappings.channels@.len() <= 256
                && first_dr is Some && first_ch is Some && -255 <= pl.rx_info.rssi <= 0 && -32
                <= pl.rx_info.snr <= 31 && conf.mesh.frequencies@.len() > 0) ==> r is Ok)
        },
{
    if conf.mesh.border_gateway {
        return Ok(MeshAction::ProxyUplink);
    }
    relay_uplink_lora_packet(state, conf, relay_id, pl)
}

/// Wraps a LoRaWAN uplink into a signed mesh uplink packet and builds
/// its transmission.
fn relay_uplink_lora_packet(
    state: &mut MeshState,
    conf: &Configuration,
    relay_id: &[u8; 4],
    pl: &UplinkFrame,
) -> (r: Result<MeshAction, Error>)
    requires
        old(state).wf(),
    ensures
        final(state).wf(),
        ({
            let id = MeshState::spec_next_uplink_id(old(state).spec_uplink_id());
            let first_dr = crate::helpers::spec_first_index_dr(
                conf.mappings.data_rates@,
                pl.tx_info.data_rate,
            );
            let first_ch = crate::helpers::spec_first_index_u32(
                conf.mappings.channels@,
                pl.tx_info.frequency,
            );
            &&& (r matches Ok(a) ==> a matches MeshAction::Transmit(t) && (exists|dr: u8, ch: u8|
                {
                    &&& (conf.mappings.data_rates@.len() <= 256 ==> Some(dr as int) == first_dr)
                    &&& (conf.mappings.channels@.len() <= 256 ==> Some(ch as int) == first_ch)
                    &&& t.phy_payload@ == #[trigger] spec_wrapped_uplink(
                        conf,
                        relay_id@,
                        pl,
                        id,
                        dr,
                        ch,
                    ).spec_bytes()
                }) && t.power == conf.mesh.tx_power && t.data_rate == conf.mesh.data_rate
                && conf.mesh.frequencies@.len() > 0 && final(state).spec_uplink_id() == id && final(state).spec_context(id) == Some(pl.rx_info.context@)
                && final(state).spec_mesh_channel() == MeshState::spec_next_channel(
                old(state).spec_mesh_channel(),
                conf.mesh.frequencies@.len() as int,
            ) && t.frequency == conf.mesh.frequencies@[final(state).spec_mesh_channel()])
            &&& (r is Err ==> final(state).spec_mesh_channel() == old(state).spec_mesh_channel())
            &&& ((conf.mappings.data_rates@.len() <= 16 && conf.mappings.channels@.len() <= 256
                && first_dr is Some && first_ch is Some && -255 <= pl.rx_info.rssi <= 0 && -32
                <= pl.rx_info.snr <= 31 && conf.mesh.frequencies@.len() > 0) ==> r is Ok)
        }),
{
    let dr = match crate::helpers::modulation_to_dr(&conf.mappings, &pl.tx_info.data_rate) {
        Ok(v) => v,
        Err(e) => {
            return Err(e);
        },
    };
    let channel = match crate::helpers::frequency_to_chan(&conf.mappings, pl.tx_info.frequency) {
        Ok(v) => v,
        Err(e) => {
            return Err(e);
        },
    };
    let uplink_id = state.store_uplink_context(pl.rx_info.context.as_slice());
    let mut phy: Vec<u8> = Vec::new();
    crate::packets::push_bytes(&mut phy, pl.phy_payload.as_slice());
    let mut packet = MeshPacket {
        mhdr: MHDR { payload_type: PayloadType::Uplink, hop_count: 1 },
        payload: Payload::Uplink(
            UplinkPayload {
                metadata: UplinkMetadata {
                    uplink_id,
                    dr,
                    rssi: pl.rx_info.rssi,
                    snr: pl.rx_info.snr,
                    channel,
                },
                relay_id: *relay_id,
                phy_payload: phy,
            },
        ),
        mic: None,
    };
    let key = active_signing_key(conf);
    proof {
        broadcast use vstd::array::group_array_axioms;

        if conf.mappings.data_rates@.len() <= 16 && -255 <= pl.rx_info.rssi <= 0 && -32
            <= pl.rx_info.snr <= 31 {
            crate::helpers::lemma_first_index_dr(conf.mappings.data_rates@, pl.tx_info.data_rate);
            assert(packet@.wf());
        }
    }
    match packet.set_mic(key) {
        Ok(()) => {},
        Err(e) => {
            return Err(e);
        },
    }
    let bytes = match packet.to_vec() {
        Ok(v) => v,
        Err(e) => {
            return Err(e);
        },
    };
    proof {
        let id = MeshState::spec_next_uplink_id(old(state).spec_uplink_id());
        let w = spec_wrapped_uplink(conf, relay_id@, pl, id, dr, channel);
        assert(packet@.payload->Uplink_0.phy_payload =~= pl.phy_payload@);
        assert(packet@.payload->Uplink_0.relay_id =~= relay_id@);
        assert(packet@.mhdr == w.mhdr);
        assert(packet@.payload == w.payload);
        assert(packet@.mic == w.mic);
        assert(bytes@ == w.spec_bytes());
    }
    match build_mesh_transmit(state, conf, bytes) {
        Ok(t) => Ok(MeshAction::Transmit(t)),
        Err(e) => Err(e),
    }
}

// --- mesh-radio packets ---

/// The relayed-downlink context of an unwrapped uplink: the three-byte
/// prefix, the relay id and the big-endian uplink id.
pub open spec fn spec_relayed_context(relay_id: Seq<u8>, uplink_id: u16) -> Seq<u8> {
    spec_ctx_prefix() + relay_id + seq![(uplink_id >> 8) as u8, uplink_id as u8]
}

/// Unwraps a relayed uplink on a Border Gateway: the original frame with
/// the mesh metadata folded into it, and a context that names the origin
/// relay and uplink id so the matching downlink finds its way back.
fn proxy_uplink_mesh_packet(conf: &Configuration, packet: &MeshPacket) -> (r: Result<
    MeshAction,
    Error,
>)
    requires
        packet@.payload is Uplink,
    ensures
        ({
            let u = packet@.payload->Uplink_0;
            &&& (r matches Ok(a) ==> a matches MeshAction::ProxyRelayedUplink(out) && out.phy_payload@
                == u.phy_payload && out.rssi == u.metadata.rssi && out.snr == u.metadata.snr
                && out.hop_count == packet@.mhdr.hop_count && out.relay_id@ == u.relay_id
                && out.uplink_id == u.metadata.uplink_id && out.context@ == spec_relayed_context(
                u.relay_id,
                u.metadata.uplink_id,
            ) && (u.metadata.channel < conf.mappings.channels@.len() ==> out.frequency
                == conf.mappings.channels@[u.metadata.channel as int]) && (u.metadata.dr
                < conf.mappings.data_rates@.len() ==> out.data_rate
                == conf.mappings.data_rates@[u.metadata.dr as int]))
            &&& (u.metadata.channel < conf.mappings.channels@.len() && u.metadata.dr
                < conf.mappings.data_rates@.len() ==> r is Ok)
            &&& (u.metadata.channel >= conf.mappings.channels@.len() ==> r == Err::<
                MeshAction,
                Error,
            >(Error::NoFrequencyForChannel))
        }),
{
    broadcast use vstd::array::group_array_axioms;

    let u = match &packet.payload {
        Payload::Uplink(u) => u,
        _ => {
            return Err(Error::UnexpectedPayload);
        },
    };
    let frequency = match crate::helpers::chan_to_frequency(&conf.mappings, u.metadata.channel) {
        Ok(v) => v,
        Err(e) => {
            return Err(e);
        },
    };
    let data_rate = match crate::helpers::dr_to_modulation(&conf.mappings, u.metadata.dr) {
        Ok(v) => v,
        Err(e) => {
            return Err(e);
        },
    };
    let mut context: Vec<u8> = Vec::new();
    context.push(1u8);
    context.push(2u8);
    context.push(3u8);
    crate::packets::push_bytes(&mut context, u.relay_id.as_slice());
    context.push((u.metadata.uplink_id >> 8) as u8);
    context.push(u.metadata.uplink_id as u8);
    let mut phy: Vec<u8> = Vec::new();
    crate::packets::push_bytes(&mut phy, u.phy_payload.as_slice());
    let out = RelayedUplink {
        phy_payload: phy,
        frequency,
        data_rate,
        rssi: u.metadata.rssi,
        snr: u.metadata.snr,
        hop_count: packet.mhdr.hop_count,
        relay_id: u.relay_id,
        uplink_id: u.metadata.uplink_id,
        context,
    };
    proof {
        assert(out.context@ =~= spec_relayed_context(
            packet@.payload->Uplink_0.relay_id,
            packet@.payload->Uplink_0.metadata.uplink_id,
        ));
        assert(out.phy_payload@ =~= packet@.payload->Uplink_0.phy_payload);
    }
    Ok(MeshAction::ProxyRelayedUplink(out))
}

/// Unwraps a relay event packet on a Border Gateway into a mesh event
/// for the forwarder.  The event list must already be decrypted.
fn proxy_event_mesh_packet(packet: &MeshPacket) -> (r: Result<MeshAction, Error>)
    requires
        packet@.payload is Event,
        forall|i: int|
            0 <= i < packet@.payload->Event_0.events.len() ==> !(packet@.payload->Event_0.events[i]
                is Encrypted),
    ensures
        r matches Ok(a) ==> a matches MeshAction::ProxyMeshEvent(m) && ({
            let ev = packet@.payload->Event_0;
            &&& m.relay_id@ == ev.relay_id
            &&& m.timestamp == ev.timestamp
            &&& m.events.deep_view() == ev.events
        }),
        packet@.payload->Event_0.relay_id.len() == 4 ==> r is Ok,
{
    broadcast use vstd::array::group_array_axioms;

    let ev = match &packet.payload {
        Payload::Event(v) => v,
        _ => {
            return Err(Error::UnexpectedPayload);
        },
    };
    proof {
        assert(packet@.payload == PayloadView::Event(ev@));
        assert forall|j: int| 0 <= j < ev.events.deep_view().len() implies !(
        #[trigger] ev.events.deep_view()[j] is Encrypted) by {
            assert(ev.events.deep_view()[j] == packet@.payload->Event_0.events[j]);
        }
    }
    let mut events: Vec<Event> = Vec::new();
    let mut i: usize = 0;
    while i < ev.events.len()
        invariant
            i <= ev.events@.len(),
            events.deep_view() =~= ev.events.deep_view().take(i as int),
            forall|j: int|
                0 <= j < ev.events.deep_view().len() ==> !(#[trigger] ev.events.deep_view()[j]
                    is Encrypted),
        decreases ev.events@.len() - i,
    {
        let e = match &ev.events[i] {
            Event::Heartbeat(hb) => {
                let mut path: Vec<RelayPath> = Vec::new();
                let mut k: usize = 0;
                while k < hb.relay_path.len()
                    invariant
                        k <= hb.relay_path@.len(),
                        path@ =~= hb.relay_path@.take(k as int),
                    decreases hb.relay_path@.len() - k,
                {
                    path.push(hb.relay_path[k]);
                    k = k + 1;
                }
                proof {
                    assert(path@ =~= hb.relay_path@);
                }
                Event::Heartbeat(crate::packets::HeartbeatPayload { relay_path: path })
            },
            Event::Proprietary(t, v) => {
                let mut value: Vec<u8> = Vec::new();
                crate::packets::push_bytes(&mut value, v.as_slice());
                Event::Proprietary(*t, value)
            },
            Event::Encrypted(_) => {
                proof {
                    assert(ev.events.deep_view()[i as int] is Encrypted);
                    assert(false);
                }
                return Err(Error::EventsNotDecrypted);
            },
        };
        proof {
            assert(e@ == ev.events@[i as int]@);
        }
        let ghost old_dv = events.deep_view();
        events.push(e);
        proof {
            assert(events.deep_view() =~= old_dv.push(e@));
            assert(events.deep_view() =~= ev.events.deep_view().take(i as int + 1));
        }
        i = i + 1;
    }
    proof {
        assert(events.deep_view() =~= ev.events.deep_view());
    }
    Ok(
        MeshAction::ProxyMeshEvent(
            MeshEventOut { relay_id: ev.relay_id, timestamp: ev.timestamp, events },
        ),
    )
}

/// A heartbeat path extended at this relay: every heartbeat event gains
/// one entry, other events stand unchanged.
pub open spec fn spec_append_heartbeat_path(
    evs: Seq<crate::packets::EventView>,
    rp: RelayPath,
) -> Seq<crate::packets::EventView> {
    Seq::new(
        evs.len(),
        |i: int|
            match evs[i] {
                crate::packets::EventView::Heartbeat(ps) => crate::packets::EventView::Heartbeat(
                    ps.push(rp),
                ),
                e => e,
            },
    )
}

/// A payload a Relay Gateway can re-encode and re-sign: plain payloads
/// with well-formed metadata, event and command payloads with plaintext
/// entries.
pub open spec fn spec_rerelay_ready(p: PayloadView, rp: RelayPath) -> bool {
    match p {
        PayloadView::Uplink(u) => u.wf(),
        PayloadView::Downlink(d) => d.wf(),
        PayloadView::Event(ev) => ev.relay_id.len() == 4 && ev.events.len() > 0 && (forall|i: int|
            0 <= i < ev.events.len() ==> #[trigger] spec_append_heartbeat_path(ev.events, rp)[i].wf()),
        PayloadView::Command(cv) => cv.relay_id.len() == 4 && cv.plaintext_form()
            && cv.commands.len() > 0,
    }
}

/// A non-empty list of well-formed events serializes to at least one
/// byte.
proof fn lemma_events_bytes_nonempty(evs: Seq<crate::packets::EventView>)
    requires
        evs.len() > 0,
        evs[0].wf(),
    ensures
        crate::packets::spec_events_bytes(evs).len() > 0,
{
}

/// A non-empty list of well-formed commands serializes to at least one
/// byte.
proof fn lemma_commands_bytes_nonempty(cvs: Seq<crate::packets::CommandView>)
    requires
        cvs.len() > 0,
        cvs[0].wf(),
    ensures
        crate::packets::spec_commands_bytes(cvs).len() > 0,
{
}

/// Whether a packet is addressed to or originated by another relay.
pub open spec fn spec_other_relay(p: PayloadView, my: Seq<u8>) -> bool {
    match p {
        PayloadView::Uplink(u) => u.relay_id != my,
        PayloadView::Downlink(d) => d.relay_id != my,
        PayloadView::Event(ev) => ev.relay_id != my,
        PayloadView::Command(cv) => cv.relay_id != my,
    }
}

/// The packet a Relay Gateway re-transmits for one it received from
/// another relay: the hop count one higher, heartbeat paths extended at
/// this relay, the event or command list re-encrypted, and the MIC
/// recomputed over the result.
pub open spec fn spec_rerelayed_packet(
    conf: &Configuration,
    p: MeshPacketView,
    my: Seq<u8>,
    rssi: i16,
    snr: i8,
) -> MeshPacketView {
    let rp = RelayPath { relay_id: [my[0], my[1], my[2], my[3]], rssi, snr };
    let enc = spec_encryption_key(conf.mesh.root_key@);
    let payload = match p.payload {
        PayloadView::Event(ev) => {
            let evs = spec_append_heartbeat_path(ev.events, rp);
            PayloadView::Event(
                crate::packets::EventPayloadView {
                    timestamp: ev.timestamp,
                    relay_id: ev.relay_id,
                    events: seq![
                        crate::packets::EventView::Encrypted(
                            crate::packets::spec_crypt(
                                enc,
                                false,
                                ev.relay_id,
                                ev.timestamp,
                                crate::packets::spec_events_bytes(evs),
                            ),
                        ),
                    ],
                },
            )
        },
        PayloadView::Command(cv) => PayloadView::Command(
            crate::packets::CommandPayloadView {
                timestamp: cv.timestamp,
                relay_id: cv.relay_id,
                commands: seq![
                    crate::packets::CommandView::Encrypted(
                        crate::packets::spec_crypt(
                            enc,
                            true,
                            cv.relay_id,
                            cv.timestamp,
                            crate::packets::spec_commands_bytes(cv.commands),
                        ),
                    ),
                ],
            },
        ),
        other => other,
    };
    let base = MeshPacketView {
        mhdr: MHDR { payload_type: p.mhdr.payload_type, hop_count: (p.mhdr.hop_count + 1) as u8 },
        payload,
        mic: None,
    };
    MeshPacketView { mic: Some(spec_packet_mic(spec_active_signing_key(conf), base)), ..base }
}

/// Handles a decrypted mesh packet on a Relay Gateway.  A packet this
/// relay originated is dropped; a downlink addressed to it is unwrapped
/// and scheduled on the device radio with the stored reception context;
/// a command addressed to it is executed if its timestamp moved forward;
/// anything else is re-transmitted with the hop count one higher, the
/// heartbeat paths extended, re-encrypted and re-signed — unless the new
/// hop count would pass the configured maximum.
pub fn relay_mesh_packet(
    state: &mut MeshState,
    conf: &Configuration,
    my_relay_id: &[u8; 4],
    rx: &RxInfo,
    packet: MeshPacket,
) -> (r: Result<MeshAction, Error>)
    requires
        old(state).wf(),
        packet@.mhdr.wf(),
        packet@.payload.matches_type(packet@.mhdr.payload_type),
    ensures
        final(state).wf(),
        final(state).spec_cache() == old(state).spec_cache(),
        final(state).spec_uplink_id() == old(state).spec_uplink_id(),
        forall|id: u16| final(state).spec_context(id) == old(state).spec_context(id),
        !(r matches Ok(a) && a is Transmit) ==> final(state).spec_mesh_channel() == old(state).spec_mesh_channel(),
        r matches Ok(a) ==> (a matches MeshAction::Transmit(t) ==> conf.mesh.frequencies@.len()
            > 0 && final(state).spec_mesh_channel() == MeshState::spec_next_channel(
            old(state).spec_mesh_channel(),
            conf.mesh.frequencies@.len() as int,
        ) && t.frequency == conf.mesh.frequencies@[final(state).spec_mesh_channel()]),
        packet@.payload matches PayloadView::Uplink(u) && u.relay_id == my_relay_id@ ==> (r
            matches Ok(a) && a is Drop && *final(state) == *old(state)),
        packet@.payload matches PayloadView::Event(ev) && ev.relay_id == my_relay_id@ ==> (r
            matches Ok(a) && a is Drop && *final(state) == *old(state)),
        packet@.payload is Downlink && packet@.payload->Downlink_0.relay_id == my_relay_id@ ==> {
            let d = packet@.payload->Downlink_0;
            let md = d.metadata;
            &&& (md.tx_power >= conf.mappings.tx_power@.len() ==> r == Err::<MeshAction, Error>(
                Error::TxPowerIndexOutOfRange,
            ))
            &&& (md.tx_power < conf.mappings.tx_power@.len() && md.dr
                >= conf.mappings.data_rates@.len() ==> r == Err::<MeshAction, Error>(
                Error::NoModulationForDataRate,
            ))
            &&& (md.tx_power < conf.mappings.tx_power@.len() && md.dr
                < conf.mappings.data_rates@.len() ==> match old(state).spec_context(md.uplink_id) {
                None => r == Err::<MeshAction, Error>(Error::NoUplinkContext),
                Some(c) => r matches Ok(a) && a matches MeshAction::ScheduleDownlink(dl)
                    && dl.phy_payload@ == d.phy_payload && dl.frequency == md.frequency && dl.power
                    == conf.mappings.tx_power@[md.tx_power as int] && dl.delay == md.delay
                    && dl.data_rate == conf.mappings.data_rates@[md.dr as int] && dl.context@ == c,
            })
            &&& *final(state) == *old(state)
        },
        packet@.payload is Command && packet@.payload->Command_0.relay_id == my_relay_id@ ==> ({
        let cv = packet@.payload->Command_0;
        match old(state).spec_last_command_timestamp() {
            Some(ts) => if ts >= cv.timestamp {
                r == Err::<MeshAction, Error>(Error::TimestampNotIncremented) && *final(state)
                    == *old(state)
            } else {
                (r matches Ok(a) && a matches MeshAction::ExecuteCommands(cs) && cs.deep_view()
                    == cv.commands) && final(state).spec_last_command_timestamp() == Some(
                    cv.timestamp,
                )
            },
            None => (r matches Ok(a) && a matches MeshAction::ExecuteCommands(cs)
                && cs.deep_view() == cv.commands) && final(state).spec_last_command_timestamp()
                == Some(cv.timestamp),
        }}),
        spec_other_relay(packet@.payload, my_relay_id@) ==> {
            &&& (packet@.mhdr.hop_count + 1 > conf.mesh.max_hop_count ==> r is Err)
            &&& (packet@.mhdr.hop_count + 1 > conf.mesh.max_hop_count && packet@.mhdr.hop_count + 1
                <= 8 && spec_rerelay_ready(
            packet@.payload,
            RelayPath { relay_id: *my_relay_id, rssi: rx.rssi, snr: rx.snr },
        ) ==> r == Err::<MeshAction, Error>(
                Error::MaxHopCountExceeded,
            ))
            &&& (packet@.mhdr.hop_count + 1 <= conf.mesh.max_hop_count && packet@.mhdr.hop_count
                + 1 <= 8 && spec_rerelay_ready(
            packet@.payload,
            RelayPath { relay_id: *my_relay_id, rssi: rx.rssi, snr: rx.snr },
        ) && conf.mesh.frequencies@.len() > 0 ==> r is Ok)
            &&& (r matches Ok(a) ==> a matches MeshAction::Transmit(t) && packet@.mhdr.hop_count
                + 1 <= conf.mesh.max_hop_count && t.phy_payload@ == spec_rerelayed_packet(
                conf,
                packet@,
                my_relay_id@,
                rx.rssi,
                rx.snr,
            ).spec_bytes() && t.power == conf.mesh.tx_power && t.data_rate == conf.mesh.data_rate)
        },
{
    broadcast use vstd::array::group_array_axioms;

    let mine = match &packet.payload {
        Payload::Uplink(u) => crate::packets::relay_ids_equal(&u.relay_id, my_relay_id),
        Payload::Downlink(d) => crate::packets::relay_ids_equal(&d.relay_id, my_relay_id),
        Payload::Event(ev) => crate::packets::relay_ids_equal(&ev.relay_id, my_relay_id),
        Payload::Command(cv) => crate::packets::relay_ids_equal(&cv.relay_id, my_relay_id),
    };
    if mine {
        match packet.payload {
            Payload::Uplink(_) => Ok(MeshAction::Drop),
            Payload::Event(_) => Ok(MeshAction::Drop),
            Payload::Downlink(d) => {
                let power = match crate::helpers::index_to_tx_power(
                    &conf.mappings,
                    d.metadata.tx_power,
                ) {
                    Ok(v) => v,
                    Err(e) => {
                        return Err(e);
                    },
                };
                let data_rate = match crate::helpers::dr_to_modulation(
                    &conf.mappings,
                    d.metadata.dr,
                ) {
                    Ok(v) => v,
                    Err(e) => {
                        return Err(e);
                    },
                };
                let context = match state.get_uplink_context(d.metadata.uplink_id) {
                    Ok(v) => v,
                    Err(e) => {
                        return Err(e);
                    },
                };
                Ok(
                    MeshAction::ScheduleDownlink(
                        DeviceDownlink {
                            phy_payload: d.phy_payload,
                            frequency: d.metadata.frequency,
                            power,
                            delay: d.metadata.delay,
                            data_rate,
                            context,
                        },
                    ),
                )
            },
            Payload::Command(cv) => {
                match state.check_command_timestamp(cv.timestamp) {
                    Ok(()) => {},
                    Err(e) => {
                        return Err(e);
                    },
                }
                Ok(MeshAction::ExecuteCommands(cv.commands))
            },
        }
    } else {
        rerelay_mesh_packet(state, conf, my_relay_id, rx, packet)
    }
}

/// Re-transmits a mesh packet received from another relay: the hop count
/// one higher, heartbeat paths extended, re-encrypted, re-signed.
fn rerelay_mesh_packet(
    state: &mut MeshState,
    conf: &Configuration,
    my_relay_id: &[u8; 4],
    rx: &RxInfo,
    packet: MeshPacket,
) -> (r: Result<MeshAction, Error>)
    requires
        old(state).wf(),
        packet@.mhdr.wf(),
        packet@.payload.matches_type(packet@.mhdr.payload_type),
    ensures
        final(state).wf(),
        packet@.mhdr.hop_count + 1 > conf.mesh.max_hop_count ==> r is Err,
        packet@.mhdr.hop_count + 1 > conf.mesh.max_hop_count && packet@.mhdr.hop_count + 1 <= 8
            && spec_rerelay_ready(
            packet@.payload,
            RelayPath { relay_id: *my_relay_id, rssi: rx.rssi, snr: rx.snr },
        ) ==> r == Err::<MeshAction, Error>(
            Error::MaxHopCountExceeded,
        ),
        r matches Ok(a) ==> a matches MeshAction::Transmit(t) && packet@.mhdr.hop_count + 1
            <= conf.mesh.max_hop_count && t.phy_payload@ == spec_rerelayed_packet(
            conf,
            packet@,
            my_relay_id@,
            rx.rssi,
            rx.snr,
        ).spec_bytes() && t.power == conf.mesh.tx_power && t.data_rate == conf.mesh.data_rate
            && conf.mesh.frequencies@.len() > 0 && final(state).spec_mesh_channel()
            == MeshState::spec_next_channel(
            old(state).spec_mesh_channel(),
            conf.mesh.frequencies@.len() as int,
        ) && t.frequency == conf.mesh.frequencies@[final(state).spec_mesh_channel()],
        packet@.mhdr.hop_count + 1 <= conf.mesh.max_hop_count && packet@.mhdr.hop_count + 1 <= 8
            && spec_rerelay_ready(
            packet@.payload,
            RelayPath { relay_id: *my_relay_id, rssi: rx.rssi, snr: rx.snr },
        ) && conf.mesh.frequencies@.len() > 0 ==> r is Ok,
        r is Err ==> final(state).spec_mesh_channel() == old(state).spec_mesh_channel(),
        final(state).spec_cache() == old(state).spec_cache(),
        final(state).spec_uplink_id() == old(state).spec_uplink_id(),
        final(state).spec_last_command_timestamp() == old(state).spec_last_command_timestamp(),
        forall|id: u16| final(state).spec_context(id) == old(state).spec_context(id),
{
    broadcast use vstd::array::group_array_axioms;

    let ghost p0 = packet@;
    let ghost w = spec_rerelayed_packet(conf, packet@, my_relay_id@, rx.rssi, rx.snr);
    let rp = RelayPath { relay_id: *my_relay_id, rssi: rx.rssi, snr: rx.snr };
    proof {
        let spec_rp = RelayPath {
            relay_id: [my_relay_id@[0], my_relay_id@[1], my_relay_id@[2], my_relay_id@[3]],
            rssi: rx.rssi,
            snr: rx.snr,
        };
        assert(rp.relay_id =~= spec_rp.relay_id);
        assert(rp == spec_rp);
    }
    let ghost ready = spec_rerelay_ready(packet@.payload, rp);
    let mut packet = packet;
    let new_payload = match packet.payload {
        Payload::Event(ev) => {
            let ghost orig = ev.events.deep_view();
            let mut evs = ev.events;
            let mut new_events: Vec<Event> = Vec::new();
            let ghost done: int = 0;
            while evs.len() > 0
                invariant
                    0 <= done <= orig.len(),
                    evs.deep_view() =~= orig.skip(done),
                    evs.deep_view().len() == evs@.len(),
                    new_events.deep_view() =~= spec_append_heartbeat_path(orig, rp).take(done),
                decreases evs@.len(),
            {
                proof {
                    assert(evs.deep_view()[0] == orig[done]);
                }
                let ghost pre = evs.deep_view();
                let e = evs.remove(0);
                proof {
                    assert(evs.deep_view() =~= pre.drop_first());
                    assert(pre.drop_first() =~= orig.skip(done + 1));
                }
                let e2 = match e {
                    Event::Heartbeat(hb) => {
                        let mut hb = hb;
                        hb.relay_path.push(rp);
                        Event::Heartbeat(hb)
                    },
                    other => other,
                };
                proof {
                    assert(e2@ == spec_append_heartbeat_path(orig, rp)[done]);
                }
                let ghost old_dv = new_events.deep_view();
                new_events.push(e2);
                proof {
                    assert(new_events.deep_view() =~= old_dv.push(e2@));
                    assert(new_events.deep_view() =~= spec_append_heartbeat_path(orig, rp).take(
                        done + 1,
                    ));
                    assert(evs.deep_view() =~= orig.skip(done + 1));
                    done = done + 1;
                }
            }
            proof {
                assert(new_events.deep_view() =~= spec_append_heartbeat_path(orig, rp));
            }
            Payload::Event(
                crate::packets::EventPayload {
                    timestamp: ev.timestamp,
                    relay_id: ev.relay_id,
                    events: new_events,
                },
            )
        },
        other => other,
    };
    packet.payload = new_payload;
    packet.mhdr.hop_count = packet.mhdr.hop_count + 1;
    let enc_key = crate::aes128::get_encryption_key(conf.mesh.root_key);
    proof {
        if ready {
            match packet@.payload {
                PayloadView::Event(ev) => {
                    assert(ev.plaintext_form());
                },
                _ => {},
            }
        }
    }
    match packet.encrypt(enc_key) {
        Ok(()) => {},
        Err(e) => {
            return Err(e);
        },
    }
    let key = active_signing_key(conf);
    proof {
        if ready && p0.mhdr.hop_count + 1 <= 8 {
            match packet@.payload {
                PayloadView::Event(ev) => {
                    lemma_events_bytes_nonempty(spec_append_heartbeat_path(p0.payload->Event_0.events, rp));
                    assert(packet@.wf());
                },
                PayloadView::Command(cv) => {
                    lemma_commands_bytes_nonempty(p0.payload->Command_0.commands);
                    assert(packet@.wf());
                },
                _ => {
                    assert(packet@.wf());
                },
            }
        }
    }
    match packet.set_mic(key) {
        Ok(()) => {},
        Err(e) => {
            return Err(e);
        },
    }
    if packet.mhdr.hop_count > conf.mesh.max_hop_count {
        return Err(Error::MaxHopCountExceeded);
    }
    let bytes = match packet.to_vec() {
        Ok(v) => v,
        Err(e) => {
            return Err(e);
        },
    };
    proof {
        assert(packet@.mhdr == w.mhdr);
        assert(packet@.payload == w.payload);
        assert(packet@.mic == w.mic);
        assert(bytes@ == w.spec_bytes());
    }
    match build_mesh_transmit(state, conf, bytes) {
        Ok(t) => Ok(MeshAction::Transmit(t)),
        Err(e) => Err(e),
    }
}

/// The packet after its event or command list is decrypted: a single
/// encrypted blob becomes the parsed plaintext list, or nothing if the
/// decrypted blob does not parse; anything else stands unchanged.
pub open spec fn spec_decrypted_packet(enc_key: Seq<u8>, p: MeshPacketView) -> Option<
    MeshPacketView,
> {
    match p.payload {
        PayloadView::Event(ev) => {
            if ev.events.len() == 1 && ev.events[0] is Encrypted {
                match crate::packets::spec_parse_events(
                    crate::packets::spec_crypt(
                        enc_key,
                        false,
                        ev.relay_id,
                        ev.timestamp,
                        ev.events[0]->Encrypted_0,
                    ),
                ) {
                    Some(es) => Some(
                        MeshPacketView {
                            payload: PayloadView::Event(
                                crate::packets::EventPayloadView {
                                    timestamp: ev.timestamp,
                                    relay_id: ev.relay_id,
                                    events: es,
                                },
                            ),
                            ..p
                        },
                    ),
                    None => None,
                }
            } else {
                Some(p)
            }
        },
        PayloadView::Command(cv) => {
            if cv.commands.len() == 1 && cv.commands[0] is Encrypted {
                match crate::packets::spec_parse_commands(
                    crate::packets::spec_crypt(
                        enc_key,
                        true,
                        cv.relay_id,
                        cv.timestamp,
                        cv.commands[0]->Encrypted_0,
                    ),
                ) {
                    Some(cs) => Some(
                        MeshPacketView {
                            payload: PayloadView::Command(
                                crate::packets::CommandPayloadView {
                                    timestamp: cv.timestamp,
                                    relay_id: cv.relay_id,
                                    commands: cs,
                                },
                            ),
                            ..p
                        },
                    ),
                    None => None,
                }
            } else {
                Some(p)
            }
        },
        _ => Some(p),
    }
}

/// Handles a proprietary frame received on the mesh radio.  The frame
/// must decode as a mesh packet and carry the MIC of the signing key in
/// force, a packet seen among the last 64 fingerprints is dropped, and
/// the event or command list is decrypted before the packet is
/// dispatched: a Border Gateway unwraps relayed uplinks and events for
/// the forwarder, a Relay Gateway answers or re-transmits it.
pub fn handle_mesh(
    state: &mut MeshState,
    conf: &Configuration,
    my_relay_id: &[u8; 4],
    pl: &UplinkFrame,
) -> (r: Result<MeshAction, Error>)
    requires
        old(state).wf(),
    ensures
        final(state).wf(),
        final(state).spec_uplink_id() == old(state).spec_uplink_id(),
        forall|id: u16| final(state).spec_context(id) == old(state).spec_context(id),
        !(r matches Ok(a) && a is Transmit) ==> final(state).spec_mesh_channel() == old(state).spec_mesh_channel(),
        r matches Ok(a) ==> (a matches MeshAction::Transmit(t) ==> conf.mesh.frequencies@.len()
            > 0 && final(state).spec_mesh_channel() == MeshState::spec_next_channel(
            old(state).spec_mesh_channel(),
            conf.mesh.frequencies@.len() as int,
        ) && t.frequency == conf.mesh.frequencies@[final(state).spec_mesh_channel()]),
        MeshPacketView::spec_parse(pl.phy_payload@) is None ==> r is Err && *final(state) == *old(state),
        MeshPacketView::spec_parse(pl.phy_payload@) matches Some(p) ==> ({
            let mic_ok = p.mic == Some(
                spec_packet_mic(spec_active_signing_key(conf), p),
            );
            let entry = PayloadCache::spec_of_packet(p);
            let dup = old(state).spec_cache().spec_contains(entry);
            let dp = spec_decrypted_packet(spec_encryption_key(conf.mesh.root_key@), p);
            &&& (!mic_ok ==> (r matches Ok(a) && a is Drop && *final(state) == *old(state)))
            &&& (mic_ok && dup ==> (r matches Ok(a) && a is Drop && final(state).spec_cache()@
                == old(state).spec_cache()@ && final(state).spec_last_command_timestamp() == old(state).spec_last_command_timestamp()))
            &&& (mic_ok && !dup ==> final(state).spec_cache().spec_contains(entry))
            &&& (mic_ok && !dup && dp is None ==> r is Err)
            &&& (mic_ok && !dup && conf.mesh.border_gateway ==> final(state).spec_last_command_timestamp() == old(state).spec_last_command_timestamp())
            &&& (mic_ok && !dup && conf.mesh.border_gateway ==> (dp matches Some(d) ==> {
                &&& (d.payload is Downlink || d.payload is Command ==> (r matches Ok(a) && a
                    is Drop))
                &&& (d.payload is Uplink ==> {
                    let u = d.payload->Uplink_0;
                    &&& (r matches Ok(a) ==> a matches MeshAction::ProxyRelayedUplink(out)
                        && out.phy_payload@ == u.phy_payload && out.rssi == u.metadata.rssi
                        && out.snr == u.metadata.snr && out.hop_count == d.mhdr.hop_count
                        && out.relay_id@ == u.relay_id && out.uplink_id == u.metadata.uplink_id
                        && out.context@ == spec_relayed_context(u.relay_id, u.metadata.uplink_id)
                        && (u.metadata.channel < conf.mappings.channels@.len() ==> out.frequency
                        == conf.mappings.channels@[u.metadata.channel as int]) && (u.metadata.dr
                        < conf.mappings.data_rates@.len() ==> out.data_rate
                        == conf.mappings.data_rates@[u.metadata.dr as int]))
                    &&& (u.metadata.channel < conf.mappings.channels@.len() && u.metadata.dr
                        < conf.mappings.data_rates@.len() ==> r is Ok)
                })
                &&& (d.payload is Event ==> (r matches Ok(a) ==> a matches
                    MeshAction::ProxyMeshEvent(m) && m.relay_id@ == d.payload->Event_0.relay_id
                    && m.timestamp == d.payload->Event_0.timestamp && m.events.deep_view()
                    == d.payload->Event_0.events) && (d.payload->Event_0.relay_id.len() == 4
                    ==> r is Ok))
            }))
            &&& (mic_ok && !dup && !conf.mesh.border_gateway ==> (dp matches Some(d) ==> {
                &&& ((d.payload matches PayloadView::Uplink(u) && u.relay_id == my_relay_id@)
                    ==> (r matches Ok(a) && a is Drop))
                &&& ((d.payload matches PayloadView::Event(ev) && ev.relay_id == my_relay_id@)
                    ==> (r matches Ok(a) && a is Drop))
                &&& (d.payload is Downlink && d.payload->Downlink_0.relay_id == my_relay_id@
                    ==> {
                    let dl_pl = d.payload->Downlink_0;
                    let md = dl_pl.metadata;
                    &&& (md.tx_power >= conf.mappings.tx_power@.len() ==> r == Err::<
                        MeshAction,
                        Error,
                    >(Error::TxPowerIndexOutOfRange))
                    &&& (md.tx_power < conf.mappings.tx_power@.len() && md.dr
                        >= conf.mappings.data_rates@.len() ==> r == Err::<MeshAction, Error>(
                        Error::NoModulationForDataRate,
                    ))
                    &&& (md.tx_power < conf.mappings.tx_power@.len() && md.dr
                        < conf.mappings.data_rates@.len() ==> match old(state).spec_context(
                        md.uplink_id,
                    ) {
                        None => r == Err::<MeshAction, Error>(Error::NoUplinkContext),
                        Some(c) => r matches Ok(a) && a matches MeshAction::ScheduleDownlink(dl)
                            && dl.phy_payload@ == dl_pl.phy_payload && dl.frequency == md.frequency
                            && dl.power == conf.mappings.tx_power@[md.tx_power as int] && dl.delay
                            == md.delay && dl.data_rate
                            == conf.mappings.data_rates@[md.dr as int] && dl.context@ == c,
                    })
                    &&& final(state).spec_last_command_timestamp() == old(state).spec_last_command_timestamp()
                })
                &&& (spec_other_relay(d.payload, my_relay_id@) ==> {
                    &&& (d.mhdr.hop_count + 1 > conf.mesh.max_hop_count ==> r is Err)
                    &&& (d.mhdr.hop_count + 1 > conf.mesh.max_hop_count && d.mhdr.hop_count + 1
                        <= 8 && spec_rerelay_ready(
                        d.payload,
                        RelayPath {
                            relay_id: *my_relay_id,
                            rssi: pl.rx_info.rssi,
                            snr: pl.rx_info.snr,
                        },
                    ) ==> r == Err::<MeshAction, Error>(Error::MaxHopCountExceeded))
                    &&& (d.mhdr.hop_count + 1 <= conf.mesh.max_hop_count && d.mhdr.hop_count + 1
                        <= 8 && spec_rerelay_ready(
                        d.payload,
                        RelayPath {
                            relay_id: *my_relay_id,
                            rssi: pl.rx_info.rssi,
                            snr: pl.rx_info.snr,
                        },
                    ) && conf.mesh.frequencies@.len() > 0 ==> r is Ok)
                    &&& (r matches Ok(a) ==> a matches MeshAction::Transmit(t)
                        && d.mhdr.hop_count + 1 <= conf.mesh.max_hop_count && t.phy_payload@
                        == spec_rerelayed_packet(
                        conf,
                        d,
                        my_relay_id@,
                        pl.rx_info.rssi,
                        pl.rx_info.snr,
                    ).spec_bytes() && t.power == conf.mesh.tx_power && t.data_rate
                        == conf.mesh.data_rate)
                })
                &&& (d.payload is Command && d.payload->Command_0.relay_id == my_relay_id@
                    ==> ({
                    let cv = d.payload->Command_0;
                    match old(state).spec_last_command_timestamp() {
                        Some(ts) => if ts >= cv.timestamp {
                            r == Err::<MeshAction, Error>(Error::TimestampNotIncremented) && final(state).spec_last_command_timestamp() == old(state).spec_last_command_timestamp()
                        } else {
                            (r matches Ok(a) && a matches MeshAction::ExecuteCommands(cs)
                                && cs.deep_view() == cv.commands) && final(state).spec_last_command_timestamp() == Some(cv.timestamp)
                        },
                        None => (r matches Ok(a) && a matches MeshAction::ExecuteCommands(cs)
                            && cs.deep_view() == cv.commands) && final(state).spec_last_command_timestamp() == Some(cv.timestamp),
                    }
                }))
            }))
        }),
{
    let packet = match MeshPacket::from_slice(pl.phy_payload.as_slice()) {
        Ok(p) => p,
        Err(e) => {
            return Err(e);
        },
    };
    proof {
        crate::packets::lemma_parsed_packet_wf(pl.phy_payload@, packet@);
    }
    let key = active_signing_key(conf);
    let valid = match packet.validate_mic(key) {
        Ok(v) => v,
        Err(e) => {
            return Err(e);
        },
    };
    if !valid {
        return Ok(MeshAction::Drop);
    }
    let entry = PayloadCache::from_packet(&packet);
    if !state.cache_add(entry) {
        return Ok(MeshAction::Drop);
    }
    let mut packet = packet;
    let enc_key = crate::aes128::get_encryption_key(conf.mesh.root_key);
    match packet.decrypt(enc_key) {
        Ok(()) => {},
        Err(e) => {
            return Err(e);
        },
    }
    proof {
        let p0 = MeshPacketView::spec_parse(pl.phy_payload@)->Some_0;
        assert(spec_decrypted_packet(spec_encryption_key(conf.mesh.root_key@), p0) == Some(
            packet@,
        ));
    }
    if conf.mesh.border_gateway {
        match &packet.payload {
            Payload::Uplink(_) => proxy_uplink_mesh_packet(conf, &packet),
            Payload::Event(_) => {
                proof {
                    let p0 = MeshPacketView::spec_parse(pl.phy_payload@)->Some_0;
                    match p0.payload {
                        PayloadView::Event(ev) => {
                            if ev.events.len() == 1 && ev.events[0] is Encrypted {
                                crate::packets::lemma_parse_events_plaintext(
                                    crate::packets::spec_crypt(
                                        spec_encryption_key(conf.mesh.root_key@),
                                        false,
                                        ev.relay_id,
                                        ev.timestamp,
                                        ev.events[0]->Encrypted_0,
                                    ),
                                );
                            }
                        },
                        _ => {},
                    }
                }
                proxy_event_mesh_packet(&packet)
            },
            _ => Ok(MeshAction::Drop),
        }
    } else {
        let rx = RxInfo {
            rssi: pl.rx_info.rssi,
            snr: pl.rx_info.snr,
            context: Vec::new(),
        };
        relay_mesh_packet(state, conf, my_relay_id, &rx, packet)
    }
}

// --- forwarder downlinks ---

/// The timing a downlink item asks for.
#[derive(Debug)]
pub enum DownlinkTiming {
    Immediately,
    Delay(u8),
}

/// One item of a downlink frame from the forwarder, normalized to plain
/// values by the caller.
#[derive(Debug)]
pub struct DownlinkItem {
    pub phy_payload: Vec<u8>,
    pub frequency: u32,
    pub power: i32,
    pub data_rate: DataRate,
    pub timing: DownlinkTiming,
    pub context: Vec<u8>,
}

/// Whether a downlink context addresses a relayed uplink: exactly nine
/// bytes opening with the relayed-context prefix.  Any other downlink is
/// proxied to the device radio verbatim.
pub fn is_relayed_context(ctx: &[u8]) -> (r: bool)
    ensures
        r == (ctx@.len() == 9 && ctx@.subrange(0, 3) == spec_ctx_prefix()),
{
    if ctx.len() != 9 {
        return false;
    }
    let r = ctx[0] == 1 && ctx[1] == 2 && ctx[2] == 3;
    proof {
        if r {
            assert(ctx@.subrange(0, 3) =~= spec_ctx_prefix());
        } else {
            assert(ctx@.subrange(0, 3)[0] == ctx@[0] && ctx@.subrange(0, 3)[1] == ctx@[1]
                && ctx@.subrange(0, 3)[2] == ctx@[2]);
        }
    }
    r
}

/// The mesh packet a relayed downlink item is wrapped in: a downlink
/// payload at hop one, addressed by the relay id and uplink id the
/// context carries, and the MIC of the signing key in force.
pub open spec fn spec_wrapped_downlink(
    conf: &Configuration,
    item: &DownlinkItem,
    dr: u8,
    tx_power: u8,
    delay: u8,
) -> MeshPacketView {
    let base = MeshPacketView {
        mhdr: MHDR { payload_type: PayloadType::Downlink, hop_count: 1 },
        payload: PayloadView::Downlink(
            crate::packets::DownlinkPayloadView {
                metadata: crate::packets::DownlinkMetadata {
                    uplink_id: crate::packets::spec_unpack_be16(item.context@[7], item.context@[8]),
                    dr,
                    frequency: item.frequency,
                    tx_power,
                    delay,
                },
                relay_id: item.context@.subrange(3, 7),
                phy_payload: item.phy_payload@,
            },
        ),
        mic: None,
    };
    MeshPacketView { mic: Some(spec_packet_mic(spec_active_signing_key(conf), base)), ..base }
}

/// Wraps one forwarder downlink item addressed to a relayed uplink into
/// a signed mesh downlink packet and builds its transmission.  An item
/// without delay timing, or with a context too short to carry the relay
/// id and uplink id, is refused.
pub fn relay_downlink_item(
    state: &mut MeshState,
    conf: &Configuration,
    item: &DownlinkItem,
) -> (r: Result<MeshTransmit, Error>)
    requires
        old(state).wf(),
    ensures
        final(state).wf(),
        final(state).spec_cache() == old(state).spec_cache(),
        final(state).spec_uplink_id() == old(state).spec_uplink_id(),
        final(state).spec_last_command_timestamp() == old(state).spec_last_command_timestamp(),
        forall|id: u16| final(state).spec_context(id) == old(state).spec_context(id),
        item.timing is Immediately ==> r == Err::<MeshTransmit, Error>(Error::OnlyDelayTiming),
        item.timing is Delay && item.context@.len() < 9 ==> r == Err::<MeshTransmit, Error>(
            Error::ContextTooShort,
        ),
        item.timing is Delay && item.context@.len() >= 9
            && crate::helpers::spec_first_index_dr(conf.mappings.data_rates@, item.data_rate)
            is None ==> r == Err::<MeshTransmit, Error>(Error::NoDataRateMatch),
        item.timing is Delay && item.context@.len() >= 9
            && crate::helpers::spec_first_index_dr(conf.mappings.data_rates@, item.data_rate)
            is Some && (forall|j: int|
            0 <= j < conf.mappings.tx_power@.len() ==> conf.mappings.tx_power@[j] > item.power)
            ==> r == Err::<MeshTransmit, Error>(Error::NoTxPowerIndex),
        r matches Ok(t) ==> item.context@.len() >= 9 && (exists|dr: u8, txp: u8|
            {
                &&& (conf.mappings.data_rates@.len() <= 256 ==> Some(dr as int)
                    == crate::helpers::spec_first_index_dr(
                    conf.mappings.data_rates@,
                    item.data_rate,
                ))
                &&& (conf.mappings.tx_power@.len() <= 256
                    ==> crate::helpers::spec_is_tx_power_index(
                    conf.mappings.tx_power@,
                    item.power,
                    txp as int,
                ))
                &&& t.phy_payload@ == #[trigger] spec_wrapped_downlink(
                    conf,
                    item,
                    dr,
                    txp,
                    item.timing->Delay_0,
                ).spec_bytes()
            }) && t.power == conf.mesh.tx_power && t.data_rate == conf.mesh.data_rate
            && conf.mesh.frequencies@.len() > 0 && final(state).spec_mesh_channel()
            == MeshState::spec_next_channel(
            old(state).spec_mesh_channel(),
            conf.mesh.frequencies@.len() as int,
        ) && t.frequency == conf.mesh.frequencies@[final(state).spec_mesh_channel()],
        r is Err ==> final(state).spec_mesh_channel() == old(state).spec_mesh_channel(),
        ({
            &&& item.timing matches DownlinkTiming::Delay(d) && 1 <= d <= 16
            &&& item.context@.len() >= 9
            &&& conf.mappings.data_rates@.len() <= 16
            &&& conf.mappings.tx_power@.len() <= 16
            &&& crate::helpers::spec_first_index_dr(conf.mappings.data_rates@, item.data_rate)
                is Some
            &&& exists|j: int|
                0 <= j < conf.mappings.tx_power@.len() && conf.mappings.tx_power@[j] <= item.power
            &&& crate::packets::spec_unpack_be16(item.context@[7], item.context@[8]) <= 4095
            &&& crate::packets::spec_freq_ok(item.frequency)
            &&& conf.mesh.frequencies@.len() > 0
        }) ==> r is Ok,
{
    broadcast use vstd::array::group_array_axioms;

    let delay = match item.timing {
        DownlinkTiming::Delay(d) => d,
        DownlinkTiming::Immediately => {
            return Err(Error::OnlyDelayTiming);
        },
    };
    if item.context.len() < 9 {
        return Err(Error::ContextTooShort);
    }
    let dr = match crate::helpers::modulation_to_dr(&conf.mappings, &item.data_rate) {
        Ok(v) => v,
        Err(e) => {
            return Err(e);
        },
    };
    let tx_power = match crate::helpers::tx_power_to_index(&conf.mappings, item.power) {
        Ok(v) => v,
        Err(e) => {
            return Err(e);
        },
    };
    let relay_id: [u8; 4] = [item.context[3], item.context[4], item.context[5], item.context[6]];
    let uplink_id = crate::packets::unpack_be16(item.context[7], item.context[8]);
    let mut phy: Vec<u8> = Vec::new();
    crate::packets::push_bytes(&mut phy, item.phy_payload.as_slice());
    let mut packet = MeshPacket {
        mhdr: MHDR { payload_type: PayloadType::Downlink, hop_count: 1 },
        payload: Payload::Downlink(
            crate::packets::DownlinkPayload {
                metadata: crate::packets::DownlinkMetadata {
                    uplink_id,
                    dr,
                    frequency: item.frequency,
                    tx_power,
                    delay,
                },
                relay_id,
                phy_payload: phy,
            },
        ),
        mic: None,
    };
    let key = active_signing_key(conf);
    proof {
        if conf.mappings.data_rates@.len() <= 16 && conf.mappings.tx_power@.len() <= 16
            && crate::packets::spec_unpack_be16(item.context@[7], item.context@[8]) <= 4095
            && crate::packets::spec_freq_ok(item.frequency) && 1 <= delay <= 16 {
            crate::helpers::lemma_first_index_dr(conf.mappings.data_rates@, item.data_rate);
            assert(packet@.wf());
        }
    }
    match packet.set_mic(key) {
        Ok(()) => {},
        Err(e) => {
            return Err(e);
        },
    }
    let bytes = match packet.to_vec() {
        Ok(v) => v,
        Err(e) => {
            return Err(e);
        },
    };
    proof {
        let w = spec_wrapped_downlink(conf, item, dr, tx_power, delay);
        assert(packet@.payload->Downlink_0.relay_id =~= item.context@.subrange(3, 7));
        assert(packet@.payload->Downlink_0.phy_payload =~= item.phy_payload@);
        assert(packet@.mhdr == w.mhdr);
        assert(packet@.payload == w.payload);
        assert(bytes@ == w.spec_bytes());
    }
    match build_mesh_transmit(state, conf, bytes) {
        Ok(t) => Ok(t),
        Err(e) => Err(e),
    }
}

// --- originated event and command packets ---

/// The mesh packet a Relay Gateway sends a batch of events in: an event
/// payload at hop one, the list encrypted under the key derived from the
/// root key, and the MIC of the signing key in force.
pub open spec fn spec_event_packet(
    conf: &Configuration,
    relay_id: Seq<u8>,
    timestamp: u32,
    events: Seq<crate::packets::EventView>,
) -> MeshPacketView {
    let base = MeshPacketView {
        mhdr: MHDR { payload_type: PayloadType::Event, hop_count: 1 },
        payload: PayloadView::Event(
            crate::packets::EventPayloadView {
                timestamp,
                relay_id,
                events: seq![
                    crate::packets::EventView::Encrypted(
                        crate::packets::spec_crypt(
                            spec_encryption_key(conf.mesh.root_key@),
                            false,
                            relay_id,
                            timestamp,
                            crate::packets::spec_events_bytes(events),
                        ),
                    ),
                ],
            },
        ),
        mic: None,
    };
    MeshPacketView { mic: Some(spec_packet_mic(spec_active_signing_key(conf), base)), ..base }
}

/// Builds the transmission of a batch of events — a heartbeat, command
/// replies or a periodic event set: the list is encrypted, the packet
/// signed, and the next hopper frequency picked.
pub fn send_events(
    state: &mut MeshState,
    conf: &Configuration,
    relay_id: &[u8; 4],
    timestamp: u32,
    events: Vec<Event>,
) -> (r: Result<MeshTransmit, Error>)
    requires
        old(state).wf(),
    ensures
        final(state).wf(),
        r matches Ok(t) ==> t.phy_payload@ == spec_event_packet(
            conf,
            relay_id@,
            timestamp,
            events.deep_view(),
        ).spec_bytes() && t.power == conf.mesh.tx_power && t.data_rate == conf.mesh.data_rate
            && conf.mesh.frequencies@.len() > 0 && final(state).spec_mesh_channel()
            == MeshState::spec_next_channel(
            old(state).spec_mesh_channel(),
            conf.mesh.frequencies@.len() as int,
        ) && t.frequency == conf.mesh.frequencies@[final(state).spec_mesh_channel()],
        r is Err ==> final(state).spec_mesh_channel() == old(state).spec_mesh_channel(),
        events.deep_view().len() > 0 && (forall|i: int|
            0 <= i < events.deep_view().len() ==> #[trigger] events.deep_view()[i].wf())
            && conf.mesh.frequencies@.len() > 0 ==> r is Ok,
        final(state).spec_cache() == old(state).spec_cache(),
        final(state).spec_uplink_id() == old(state).spec_uplink_id(),
        final(state).spec_last_command_timestamp() == old(state).spec_last_command_timestamp(),
{
    broadcast use vstd::array::group_array_axioms;

    let ghost evs = events.deep_view();
    let mut packet = MeshPacket {
        mhdr: MHDR { payload_type: PayloadType::Event, hop_count: 1 },
        payload: Payload::Event(
            crate::packets::EventPayload { timestamp, relay_id: *relay_id, events },
        ),
        mic: None,
    };
    let enc_key = crate::aes128::get_encryption_key(conf.mesh.root_key);
    proof {
        assert(packet@.payload->Event_0.events == evs);
    }
    match packet.encrypt(enc_key) {
        Ok(()) => {},
        Err(e) => {
            return Err(e);
        },
    }
    let key = active_signing_key(conf);
    proof {
        if evs.len() > 0 && (forall|i: int| 0 <= i < evs.len() ==> #[trigger] evs[i].wf()) {
            lemma_events_bytes_nonempty(evs);
            assert(packet@.wf());
        }
    }
    match packet.set_mic(key) {
        Ok(()) => {},
        Err(e) => {
            return Err(e);
        },
    }
    let bytes = match packet.to_vec() {
        Ok(v) => v,
        Err(e) => {
            return Err(e);
        },
    };
    proof {
        let w = spec_event_packet(conf, relay_id@, timestamp, evs);
        assert(packet@.mhdr == w.mhdr);
        assert(packet@.payload == w.payload);
        assert(bytes@ == w.spec_bytes());
    }
    match build_mesh_transmit(state, conf, bytes) {
        Ok(t) => Ok(t),
        Err(e) => Err(e),
    }
}

/// The mesh packet a Border Gateway sends a command batch in: a command
/// payload at hop one, the list encrypted, the packet signed.
pub open spec fn spec_command_packet(
    conf: &Configuration,
    relay_id: Seq<u8>,
    timestamp: u32,
    commands: Seq<crate::packets::CommandView>,
) -> MeshPacketView {
    let base = MeshPacketView {
        mhdr: MHDR { payload_type: PayloadType::Command, hop_count: 1 },
        payload: PayloadView::Command(
            crate::packets::CommandPayloadView {
                timestamp,
                relay_id,
                commands: seq![
                    crate::packets::CommandView::Encrypted(
                        crate::packets::spec_crypt(
                            spec_encryption_key(conf.mesh.root_key@),
                            true,
                            relay_id,
                            timestamp,
                            crate::packets::spec_commands_bytes(commands),
                        ),
                    ),
                ],
            },
        ),
        mic: None,
    };
    MeshPacketView { mic: Some(spec_packet_mic(spec_active_signing_key(conf), base)), ..base }
}

/// Builds the transmission of a command batch addressed to a relay: the
/// list is encrypted, the packet signed, and the next hopper frequency
/// picked.
pub fn send_mesh_command(
    state: &mut MeshState,
    conf: &Configuration,
    relay_id: &[u8; 4],
    timestamp: u32,
    commands: Vec<Command>,
) -> (r: Result<MeshTransmit, Error>)
    requires
        old(state).wf(),
    ensures
        final(state).wf(),
        r matches Ok(t) ==> t.phy_payload@ == spec_command_packet(
            conf,
            relay_id@,
            timestamp,
            commands.deep_view(),
        ).spec_bytes() && t.power == conf.mesh.tx_power && t.data_rate == conf.mesh.data_rate
            && conf.mesh.frequencies@.len() > 0 && final(state).spec_mesh_channel()
            == MeshState::spec_next_channel(
            old(state).spec_mesh_channel(),
            conf.mesh.frequencies@.len() as int,
        ) && t.frequency == conf.mesh.frequencies@[final(state).spec_mesh_channel()],
        r is Err ==> final(state).spec_mesh_channel() == old(state).spec_mesh_channel(),
        commands.deep_view().len() > 0 && (forall|i: int|
            0 <= i < commands.deep_view().len() ==> #[trigger] commands.deep_view()[i].wf())
            && conf.mesh.frequencies@.len() > 0 ==> r is Ok,
        final(state).spec_cache() == old(state).spec_cache(),
        final(state).spec_uplink_id() == old(state).spec_uplink_id(),
        final(state).spec_last_command_timestamp() == old(state).spec_last_command_timestamp(),
{
    broadcast use vstd::array::group_array_axioms;

    let ghost cvs = commands.deep_view();
    let mut packet = MeshPacket {
        mhdr: MHDR { payload_type: PayloadType::Command, hop_count: 1 },
        payload: Payload::Command(
            crate::packets::CommandPayload { timestamp, relay_id: *relay_id, commands },
        ),
        mic: None,
    };
    let enc_key = crate::aes128::get_encryption_key(conf.mesh.root_key);
    proof {
        assert(packet@.payload->Command_0.commands == cvs);
    }
    match packet.encrypt(enc_key) {
        Ok(()) => {},
        Err(e) => {
            return Err(e);
        },
    }
    let key = active_signing_key(conf);
    proof {
        if cvs.len() > 0 && (forall|i: int| 0 <= i < cvs.len() ==> #[trigger] cvs[i].wf()) {
            lemma_commands_bytes_nonempty(cvs);
            assert(packet@.wf());
        }
    }
    match packet.set_mic(key) {
        Ok(()) => {},
        Err(e) => {
            return Err(e);
        },
    }
    let bytes = match packet.to_vec() {
        Ok(v) => v,
        Err(e) => {
            return Err(e);
        },
    };
    proof {
        let w = spec_command_packet(conf, relay_id@, timestamp, cvs);
        assert(packet@.mhdr == w.mhdr);
        assert(packet@.payload == w.payload);
        assert(bytes@ == w.spec_bytes());
    }
    match build_mesh_transmit(state, conf, bytes) {
        Ok(t) => Ok(t),
        Err(e) => Err(e),
    }
}

/// A freshly originated event packet survives the whole pipeline: its
/// wire bytes decode back to the very packet, and decrypting the decoded
/// packet restores the plaintext event list.  This is the composition of
/// the wire round trip with the encrypt-decrypt identity, in the order
/// the engine performs them: encrypt first, sign after.
pub proof fn lemma_event_packet_pipeline(
    conf: &Configuration,
    relay_id: Seq<u8>,
    timestamp: u32,
    events: Seq<crate::packets::EventView>,
)
    requires
        relay_id.len() == 4,
        events.len() > 0,
        forall|i: int| 0 <= i < events.len() ==> events[i].wf(),
    ensures
        ({
            let w = spec_event_packet(conf, relay_id, timestamp, events);
            &&& MeshPacketView::spec_parse(w.spec_bytes()) == Some(w)
            &&& spec_decrypted_packet(spec_encryption_key(conf.mesh.root_key@), w) matches Some(d)
                && d.payload->Event_0.events == events
        }),
{
    let w = spec_event_packet(conf, relay_id, timestamp, events);
    lemma_events_bytes_nonempty(events);
    assert(w.wf());
    crate::packets::lemma_mesh_packet_round_trip(w);
    crate::packets::lemma_event_encrypt_decrypt_identity(
        spec_encryption_key(conf.mesh.root_key@),
        crate::packets::EventPayloadView { timestamp, relay_id, events },
    );
}

/// A freshly originated command packet survives the whole pipeline in
/// the same way.
pub proof fn lemma_command_packet_pipeline(
    conf: &Configuration,
    relay_id: Seq<u8>,
    timestamp: u32,
    commands: Seq<crate::packets::CommandView>,
)
    requires
        relay_id.len() == 4,
        commands.len() > 0,
        forall|i: int| 0 <= i < commands.len() ==> commands[i].wf(),
    ensures
        ({
            let w = spec_command_packet(conf, relay_id, timestamp, commands);
            &&& MeshPacketView::spec_parse(w.spec_bytes()) == Some(w)
            &&& spec_decrypted_packet(spec_encryption_key(conf.mesh.root_key@), w) matches Some(d)
                && d.payload->Command_0.commands == commands
        }),
{
    let w = spec_command_packet(conf, relay_id, timestamp, commands);
    lemma_commands_bytes_nonempty(commands);
    assert(w.wf());
    crate::packets::lemma_mesh_packet_round_trip(w);
    crate::packets::lemma_command_encrypt_decrypt_identity(
        spec_encryption_key(conf.mesh.root_key@),
        crate::packets::CommandPayloadView { timestamp, relay_id, commands },
    );
}

// --- pre-filters ---

/// Whether a device-radio uplink reaches the engine: its CRC must be
/// good, it must not be a proprietary mesh frame (those belong on the
/// mesh radio), a Border Gateway configured to ignore direct uplinks
/// drops it, and the DevAddr and JoinEUI filters must accept it.  The
/// filter verdict is computed by the surrounding process.
pub fn accept_device_uplink(
    conf: &Configuration,
    crc_ok: bool,
    phy: &[u8],
    filters_match: bool,
) -> (r: bool)
    ensures
        r == (crc_ok && !crate::packets::spec_is_mesh_frame(phy@) && !(conf.mesh.border_gateway
            && conf.mesh.border_gateway_ignore_direct_uplinks) && filters_match),
{
    if !crc_ok {
        return false;
    }
    if phy.len() > 0 {
        let b0 = phy[0];
        if b0 & 0xe0 == 0xe0 {
            return false;
        }
    }
    if conf.mesh.border_gateway && conf.mesh.border_gateway_ignore_direct_uplinks {
        return false;
    }
    filters_match
}

/// Whether a mesh-radio frame reaches the engine: its CRC must be good
/// and it must carry the proprietary marker.
pub fn accept_mesh_uplink(crc_ok: bool, phy: &[u8]) -> (r: bool)
    ensures
        r == (crc_ok && crate::packets::spec_is_mesh_frame(phy@)),
{
    if !crc_ok {
        return false;
    }
    if phy.len() == 0 {
        return false;
    }
    let b0 = phy[0];
    b0 & 0xe0 == 0xe0
}

// --- fairness of the frequency hopper ---

/// One hopper step from a cursor inside the table is plain modular
/// increment, and lands inside the table again.  Every reachable state
/// under a fixed frequency table satisfies the premise: `MeshState::new`
/// starts the cursor at zero, and each advance is such a step.
pub proof fn lemma_next_channel_mod(c: int, len: int)
    requires
        len > 0,
        0 <= c < len,
    ensures
        MeshState::spec_next_channel(c, len) == (c + 1) % len,
        0 <= MeshState::spec_next_channel(c, len) < len,
{
    if c + 1 >= len {
        assert((c + 1) % len == 0) by (nonlinear_arith)
            requires
                len > 0,
                c + 1 == len,
        ;
    } else {
        assert((c + 1) % len == c + 1) by (nonlinear_arith)
            requires
                0 <= c + 1 < len,
        ;
    }
}

/// The cursor after a number of calls from a starting cursor.
pub open spec fn spec_channel_after(c: int, n: nat, len: int) -> int
    decreases n,
{
    if n == 0 {
        c
    } else {
        MeshState::spec_next_channel(spec_channel_after(c, (n - 1) as nat, len), len)
    }
}

/// How often the hopper lands on an index over the first `n` calls.
pub open spec fn spec_times_selected(c: int, n: nat, len: int, j: int) -> int
    decreases n,
{
    if n == 0 {
        0int
    } else {
        spec_times_selected(c, (n - 1) as nat, len, j) + if spec_channel_after(c, n, len) == j {
            1int
        } else {
            0int
        }
    }
}

/// From a cursor inside the table, the hopper cycles: the cursor after
/// `n` calls is the start plus `n`, modulo the table length.
proof fn lemma_channel_after_mod(c: int, n: nat, len: int)
    requires
        len > 0,
        0 <= c < len,
    ensures
        spec_channel_after(c, n, len) == (c + n) % len,
    decreases n,
{
    if n == 0 {
        assert(c % len == c) by (nonlinear_arith)
            requires
                0 <= c < len,
        ;
    } else {
        lemma_channel_after_mod(c, (n - 1) as nat, len);
        let prev = (c + n - 1) % len;
        vstd::arithmetic::div_mod::lemma_mod_division_less_than_divisor(c + n - 1, len);
        if prev + 1 >= len {
            assert(prev == len - 1);
            assert((c + n) % len == 0) by (nonlinear_arith)
                requires
                    len > 0,
                    (c + n - 1) % len == len - 1,
            ;
        } else {
            assert((c + n) % len == prev + 1) by (nonlinear_arith)
                requires
                    len > 0,
                    prev == (c + n - 1) % len,
                    prev + 1 < len,
            ;
        }
    }
}

/// The closed count: with `d` the cyclic distance from the cursor to the
/// index, the index is hit on calls `d`, `d + len`, `d + 2·len`, and so
/// on (`len`, `2·len`, ... when the distance is zero).
spec fn spec_count_formula(n: nat, d: int, len: int) -> int {
    if d == 0 {
        n as int / len
    } else if n >= d {
        (n - d) / len + 1
    } else {
        0int
    }
}

proof fn lemma_times_selected_formula(c: int, n: nat, len: int, j: int)
    requires
        len > 0,
        0 <= c < len,
        0 <= j < len,
    ensures
        spec_times_selected(c, n, len, j) == spec_count_formula(n, (j - c) % len, len),
    decreases n,
{
    let d = (j - c) % len;
    vstd::arithmetic::div_mod::lemma_mod_division_less_than_divisor(j - c, len);
    if n == 0 {
    } else {
        lemma_times_selected_formula(c, (n - 1) as nat, len, j);
        lemma_channel_after_mod(c, n, len);
        let hit = (c + n) % len == j;
        assert(hit <==> (n as int) % len == d) by (nonlinear_arith)
            requires
                len > 0,
                0 <= c < len,
                0 <= j < len,
                d == (j - c) % len,
                hit == ((c + n) % len == j),
        ;
        assert(spec_count_formula(n, d, len) == spec_count_formula((n - 1) as nat, d, len) + if (
        n as int) % len == d {
            1int
        } else {
            0int
        }) by (nonlinear_arith)
            requires
                len > 0,
                0 <= d < len,
                n >= 1,
        ;
    }
}

/// Fairness of the frequency hopper: over any `n` calls from a cursor
/// inside the table, every index is selected either `n` divided by the
/// table length rounded down, or that plus one, times; when the length
/// divides `n` evenly, every index is selected exactly `n / len` times.
pub proof fn lemma_hopper_fairness(c: int, n: nat, len: int, j: int)
    requires
        len > 0,
        0 <= c < len,
        0 <= j < len,
    ensures
        n as int / len <= spec_times_selected(c, n, len, j) <= n as int / len + 1,
        n as int % len == 0 ==> spec_times_selected(c, n, len, j) == n as int / len,
{
    let d = (j - c) % len;
    vstd::arithmetic::div_mod::lemma_mod_division_less_than_divisor(j - c, len);
    lemma_times_selected_formula(c, n, len, j);
    assert({
        &&& n as int / len <= spec_count_formula(n, d, len) <= n as int / len + 1
        &&& n as int % len == 0 ==> spec_count_formula(n, d, len) == n as int / len
    }) by (nonlinear_arith)
        requires
            len > 0,
            0 <= d < len,
    ;
}

} // verus!
