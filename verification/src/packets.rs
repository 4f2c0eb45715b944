//! The on-air mesh packet format.
//!
//! A mesh frame is a LoRaWAN proprietary frame: one header byte whose top
//! three bits are `0b111`, a payload that depends on the payload type, and
//! a four-byte MIC trailer.  Event and command payloads carry their entry
//! list encrypted; the uplink and downlink payloads are plain.

use vstd::prelude::*;

use crate::aes128::{aes128_block, Aes128Key};
use crate::error::Error;

verus! {

/// The four payload types carried in the header byte.
#[derive(Debug, Clone, Copy, PartialEq, Eq, Structural)]
pub enum PayloadType {
    Uplink,
    Downlink,
    Event,
    Command,
}

/// The wire value of a payload type.
pub open spec fn spec_payload_type_byte(t: PayloadType) -> u8 {
    match t {
        PayloadType::Uplink => 0u8,
        PayloadType::Downlink => 1u8,
        PayloadType::Event => 2u8,
        PayloadType::Command => 3u8,
    }
}

/// The payload type of a two-bit wire value.
pub open spec fn spec_payload_type_of(b: u8) -> PayloadType {
    if b == 0 {
        PayloadType::Uplink
    } else if b == 1 {
        PayloadType::Downlink
    } else if b == 2 {
        PayloadType::Event
    } else {
        PayloadType::Command
    }
}

impl PayloadType {
    /// Decodes a payload type; only the values zero to three are valid.
    pub fn from_byte(b: u8) -> (r: Result<Self, Error>)
        ensures
            b <= 3 ==> r == Ok::<Self, Error>(spec_payload_type_of(b)),
            b > 3 ==> r == Err::<Self, Error>(Error::UnexpectedPayloadType),
    {
        match b {
            0x00 => Ok(PayloadType::Uplink),
            0x01 => Ok(PayloadType::Downlink),
            0x02 => Ok(PayloadType::Event),
            0x03 => Ok(PayloadType::Command),
            _ => Err(Error::UnexpectedPayloadType),
        }
    }

    /// The wire value of this payload type.
    pub fn to_byte(&self) -> (r: u8)
        ensures
            r == spec_payload_type_byte(*self),
            r <= 3,
    {
        match self {
            PayloadType::Uplink => 0x00,
            PayloadType::Downlink => 0x01,
            PayloadType::Event => 0x02,
            PayloadType::Command => 0x03,
        }
    }
}

/// The mesh header: payload type and hop count.
///
/// On the wire the top three bits are the proprietary marker `0b111`, the
/// next two bits the payload type, and the low three bits the hop count
/// less one, so a valid hop count is between one and eight.
#[derive(Debug, Clone, Copy, PartialEq, Eq, Structural)]
pub struct MHDR {
    pub payload_type: PayloadType,
    pub hop_count: u8,
}

impl MHDR {
    /// A header that a packet may carry: hop count between one and eight.
    pub open spec fn wf(&self) -> bool {
        1 <= self.hop_count <= 8
    }
}

/// The header byte of a well-formed header.
pub open spec fn spec_mhdr_byte(m: MHDR) -> u8 {
    ((0x07u8 << 5) | (spec_payload_type_byte(m.payload_type) << 3)) | (
    (m.hop_count - 1) as u8)
}

/// The header decoded from a byte, or nothing if the byte does not carry
/// the proprietary marker.
pub open spec fn spec_decode_mhdr(b: u8) -> Option<MHDR> {
    if (b >> 5) != 0x07 {
        None
    } else {
        Some(
            MHDR {
                payload_type: spec_payload_type_of((b >> 3) & 0x03),
                hop_count: ((b & 0x07) + 1) as u8,
            },
        )
    }
}

/// A decoded hop count is between one and eight, and decoding inverts
/// encoding.
pub proof fn lemma_mhdr_byte_facts(b: u8)
    ensures
        ((b >> 3) & 0x03) <= 3,
        ((b & 0x07) + 1) <= 8,
        1 <= ((b & 0x07) + 1),
{
    assert(((b >> 3) & 0x03) <= 3 && ((b & 0x07) + 1) <= 8) by (bit_vector);
}

/// Encoding a well-formed header and decoding the byte gives the header
/// back.
pub proof fn lemma_mhdr_round_trip(m: MHDR)
    requires
        m.wf(),
    ensures
        spec_decode_mhdr(spec_mhdr_byte(m)) == Some(m),
{
    let p = spec_payload_type_byte(m.payload_type);
    let h = m.hop_count;
    let b = spec_mhdr_byte(m);
    assert(p <= 3);
    assert((((0x07u8 << 5) | (p << 3)) | ((h - 1) as u8)) >> 5 == 0x07 && ((((0x07u8 << 5) | (p
        << 3)) | ((h - 1) as u8)) >> 3) & 0x03 == p && (((((0x07u8 << 5) | (p << 3)) | ((h
        - 1) as u8)) & 0x07) + 1) as u8 == h) by (bit_vector)
        requires
            p <= 3,
            1 <= h <= 8,
    ;
    assert(spec_payload_type_of(p) == m.payload_type);
}

impl MHDR {
    /// Decodes the header byte.  The top three bits must be the
    /// proprietary marker; any two-bit payload type is valid, and the
    /// decoded hop count is always between one and eight.
    pub fn from_byte(b: u8) -> (r: Result<Self, Error>)
        ensures
            r matches Ok(m) ==> spec_decode_mhdr(b) == Some(m) && m.wf(),
            r is Err ==> spec_decode_mhdr(b) is None && r == Err::<Self, Error>(
                Error::InvalidMType,
            ),
    {
        if (b >> 5) != 0x07 {
            return Err(Error::InvalidMType);
        }
        proof {
            lemma_mhdr_byte_facts(b);
        }
        let payload_type = match PayloadType::from_byte((b >> 3) & 0x03) {
            Ok(v) => v,
            Err(e) => {
                return Err(e);
            },
        };
        Ok(MHDR { payload_type, hop_count: (b & 0x07) + 1 })
    }

    /// Encodes the header byte; a hop count outside one to eight is
    /// refused.
    pub fn to_byte(&self) -> (r: Result<u8, Error>)
        ensures
            self.hop_count == 0 ==> r == Err::<u8, Error>(Error::MinHopCount),
            self.hop_count > 8 ==> r == Err::<u8, Error>(Error::MaxHopCount),
            self.wf() ==> r == Ok::<u8, Error>(spec_mhdr_byte(*self)),
    {
        if self.hop_count == 0 {
            return Err(Error::MinHopCount);
        }
        if self.hop_count > 8 {
            return Err(Error::MaxHopCount);
        }
        Ok(((0x07u8 << 5) | (self.payload_type.to_byte() << 3)) | (self.hop_count - 1))
    }
}

// --- six-bit signal-to-noise ratio ---

/// The wire form of an SNR between -32 and 31: six-bit two's complement,
/// negatives offset by 64.
pub open spec fn spec_snr_byte(snr: i8) -> u8 {
    if snr < 0 {
        (snr + 64) as u8
    } else {
        snr as u8
    }
}

/// The SNR read from the low six bits of a byte.
pub open spec fn spec_snr_of_byte(b: u8) -> i8 {
    let s = b & 0x3f;
    if s > 31 {
        ((s as i8) - 64) as i8
    } else {
        s as i8
    }
}

fn snr_to_byte(snr: i8) -> (r: u8)
    requires
        -32 <= snr <= 31,
    ensures
        r == spec_snr_byte(snr),
        r < 64,
{
    if snr < 0 {
        (snr + 64) as u8
    } else {
        snr as u8
    }
}

fn snr_from_byte(b: u8) -> (r: i8)
    ensures
        r == spec_snr_of_byte(b),
        -32 <= r <= 31,
{
    let s = b & 0x3f;
    proof {
        assert(b & 0x3f < 64) by (bit_vector);
    }
    if s > 31 {
        (s as i8) - 64
    } else {
        s as i8
    }
}

/// Reading back a stored SNR gives the stored value.
pub proof fn lemma_snr_round_trip(snr: i8)
    requires
        -32 <= snr <= 31,
    ensures
        spec_snr_of_byte(spec_snr_byte(snr)) == snr,
{
    let b = spec_snr_byte(snr);
    assert(b < 64 ==> b & 0x3f == b) by (bit_vector);
}

// --- packed uplink id and data rate ---

/// The first metadata byte: the top eight bits of the twelve-bit uplink
/// id.
pub open spec fn spec_id_hi(uplink_id: u16) -> u8 {
    (uplink_id >> 4) as u8
}

/// The second metadata byte: the low four bits of the uplink id above the
/// four-bit data rate.
pub open spec fn spec_id_lo_dr(uplink_id: u16, dr: u8) -> u8 {
    (((uplink_id & 0x0f) as u8) << 4) | dr
}

/// The uplink id unpacked from the first two metadata bytes.
pub open spec fn spec_unpack_id(b0: u8, b1: u8) -> u16 {
    ((b0 as u16) << 4) | ((b1 as u16) >> 4)
}

/// The data rate unpacked from the second metadata byte.
pub open spec fn spec_unpack_dr(b1: u8) -> u8 {
    b1 & 0x0f
}

/// Unpacking the packed uplink id and data rate gives the values back,
/// and an unpacked pair is always in range.
pub proof fn lemma_id_dr_round_trip(uplink_id: u16, dr: u8)
    requires
        uplink_id <= 4095,
        dr <= 15,
    ensures
        spec_unpack_id(spec_id_hi(uplink_id), spec_id_lo_dr(uplink_id, dr)) == uplink_id,
        spec_unpack_dr(spec_id_lo_dr(uplink_id, dr)) == dr,
{
    let id = uplink_id;
    assert((((id >> 4) as u8) as u16) << 4 | (((((id & 0x0f) as u8) << 4) | dr) as u16) >> 4 == id
        && ((((id & 0x0f) as u8) << 4) | dr) & 0x0f == dr) by (bit_vector)
        requires
            id <= 4095,
            dr <= 15,
    ;
}

/// An unpacked uplink id fits in twelve bits; an unpacked data rate in
/// four.
pub proof fn lemma_unpack_ranges(b0: u8, b1: u8)
    ensures
        spec_unpack_id(b0, b1) <= 4095,
        spec_unpack_dr(b1) <= 15,
{
    assert(((b0 as u16) << 4 | (b1 as u16) >> 4) <= 4095 && b1 & 0x0f <= 15) by (bit_vector);
}

fn pack_id_hi(uplink_id: u16) -> (r: u8)
    requires
        uplink_id <= 4095,
    ensures
        r == spec_id_hi(uplink_id),
{
    (uplink_id >> 4) as u8
}

fn pack_id_lo_dr(uplink_id: u16, dr: u8) -> (r: u8)
    requires
        uplink_id <= 4095,
        dr <= 15,
    ensures
        r == spec_id_lo_dr(uplink_id, dr),
{
    (((uplink_id & 0x0f) as u8) << 4) | dr
}

fn unpack_id(b0: u8, b1: u8) -> (r: u16)
    ensures
        r == spec_unpack_id(b0, b1),
        r <= 4095,
{
    proof {
        lemma_unpack_ranges(b0, b1);
    }
    ((b0 as u16) << 4) | ((b1 as u16) >> 4)
}

fn unpack_dr(b1: u8) -> (r: u8)
    ensures
        r == spec_unpack_dr(b1),
        r <= 15,
{
    proof {
        lemma_unpack_ranges(0, b1);
    }
    b1 & 0x0f
}

// --- frequency ---

/// Whether a frequency can be written as three step-count bytes: it must
/// be a multiple of its step — 200 Hz at or above 2.4 GHz, 100 Hz below —
/// and the step count must fit in three bytes.
pub open spec fn spec_freq_ok(freq: u32) -> bool {
    if freq >= 2400000000 {
        freq / 200 < 0x1000000 && freq % 200 == 0
    } else {
        freq / 100 < 0x1000000 && freq % 100 == 0
    }
}

/// Which error encoding a frequency off its grid reports: a step count
/// too large for three bytes first, then a frequency off its step.
pub open spec fn spec_freq_err(freq: u32) -> Error {
    let step: u32 = if freq >= 2400000000 {
        200
    } else {
        100
    };
    if freq / step >= 0x1000000 {
        Error::MaxFrequency
    } else {
        Error::FrequencyStep
    }
}

/// The three frequency bytes: the step count, big endian.
pub open spec fn spec_freq_bytes(freq: u32) -> Seq<u8> {
    let v = if freq >= 2400000000 {
        freq / 200
    } else {
        freq / 100
    };
    seq![(v >> 16) as u8, (v >> 8) as u8, v as u8]
}

/// The frequency read from three step-count bytes: step counts of at
/// least twelve million are on the 200 Hz grid of the 2.4 GHz band.
pub open spec fn spec_decode_freq(b0: u8, b1: u8, b2: u8) -> u32 {
    let v = (((b0 as u32) << 16) | ((b1 as u32) << 8)) | (b2 as u32);
    if v >= 12000000 {
        (v * 200) as u32
    } else {
        (v * 100) as u32
    }
}

/// Encodes a frequency as three step-count bytes.  A frequency off its
/// step, or with a step count too large for three bytes, is refused.
pub fn encode_freq(freq: u32) -> (r: Result<[u8; 3], Error>)
    ensures
        spec_freq_ok(freq) ==> (r matches Ok(b) && b@ == spec_freq_bytes(freq)),
        !spec_freq_ok(freq) ==> r == Err::<[u8; 3], Error>(spec_freq_err(freq)),
{
    let step: u32 = if freq >= 2400000000 {
        200
    } else {
        100
    };
    if freq / step >= 0x1000000 {
        return Err(Error::MaxFrequency);
    }
    if freq % step != 0 {
        return Err(Error::FrequencyStep);
    }
    let v = freq / step;
    let b = [(v >> 16) as u8, (v >> 8) as u8, v as u8];
    proof {
        assert(b@ =~= spec_freq_bytes(freq));
    }
    Ok(b)
}

/// Decodes three step-count bytes into a frequency.
pub fn decode_freq(b: &[u8]) -> (r: Result<u32, Error>)
    ensures
        b@.len() == 3 ==> r == Ok::<u32, Error>(spec_decode_freq(b@[0], b@[1], b@[2])),
        b@.len() != 3 ==> r == Err::<u32, Error>(Error::FrequencyByteLen),
{
    if b.len() != 3 {
        return Err(Error::FrequencyByteLen);
    }
    let b0 = b[0];
    let b1 = b[1];
    let b2 = b[2];
    let v = (((b0 as u32) << 16) | ((b1 as u32) << 8)) | (b2 as u32);
    proof {
        assert((((b0 as u32) << 16) | ((b1 as u32) << 8)) | (b2 as u32) < 0x1000000)
            by (bit_vector);
    }
    if v >= 12000000 {
        Ok(v * 200)
    } else {
        Ok(v * 100)
    }
}

/// A frequency on the 100 Hz grid below 1.2 GHz, or on the 200 Hz grid of
/// the 2.4 GHz band, comes back unchanged from its three wire bytes.
/// Frequencies between 1.2 and 2.4 GHz do not: their step count lands in
/// the range that decoding takes for the 2.4 GHz band.
pub proof fn lemma_freq_round_trip(freq: u32)
    requires
        (freq % 100 == 0 && freq < 1200000000) || (2400000000 <= freq < 3355443200 && freq % 200
            == 0),
    ensures
        spec_freq_ok(freq),
        spec_decode_freq(
            spec_freq_bytes(freq)[0],
            spec_freq_bytes(freq)[1],
            spec_freq_bytes(freq)[2],
        ) == freq,
{
    let v = if freq >= 2400000000 {
        freq / 200
    } else {
        freq / 100
    };
    if freq >= 2400000000 {
        assert(freq / 200 < 0x1000000 && freq / 200 >= 12000000 && (freq / 200) * 200 == freq)
            by (nonlinear_arith)
            requires
                2400000000 <= freq < 3355443200,
                freq % 200 == 0,
        ;
    } else {
        assert(freq / 100 < 12000000 && (freq / 100) * 100 == freq) by (nonlinear_arith)
            requires
                freq < 1200000000,
                freq % 100 == 0,
        ;
    }
    assert(v < 0x1000000 ==> ((((v >> 16) as u8) as u32) << 16 | (((v >> 8) as u8) as u32) << 8) | (
    (v as u8) as u32) == v) by (bit_vector);
}

// --- uplink metadata ---

/// The five-byte metadata header of an uplink payload.
#[derive(Debug, Clone, Copy, PartialEq, Eq, Structural)]
pub struct UplinkMetadata {
    pub uplink_id: u16,
    pub dr: u8,
    pub rssi: i16,
    pub snr: i8,
    pub channel: u8,
}

impl UplinkMetadata {
    /// The ranges the wire format can carry: a twelve-bit uplink id, a
    /// four-bit data rate, an RSSI between -255 and 0 and an SNR between
    /// -32 and 31.
    pub open spec fn wf(&self) -> bool {
        &&& self.uplink_id <= 4095
        &&& self.dr <= 15
        &&& -255 <= self.rssi <= 0
        &&& -32 <= self.snr <= 31
    }

    /// The five wire bytes of well-formed metadata.
    pub open spec fn spec_bytes(&self) -> Seq<u8> {
        seq![
            spec_id_hi(self.uplink_id),
            spec_id_lo_dr(self.uplink_id, self.dr),
            (-self.rssi) as u8,
            spec_snr_byte(self.snr),
            self.channel,
        ]
    }

    /// The metadata read from five wire bytes.
    pub open spec fn spec_of_bytes(b: Seq<u8>) -> UplinkMetadata {
        UplinkMetadata {
            uplink_id: spec_unpack_id(b[0], b[1]),
            dr: spec_unpack_dr(b[1]),
            rssi: -(b[2] as i16) as i16,
            snr: spec_snr_of_byte(b[3]),
            channel: b[4],
        }
    }

    /// Decodes the five-byte metadata header; the result is always
    /// well-formed.
    pub fn from_bytes(b: [u8; 5]) -> (r: Self)
        ensures
            r == Self::spec_of_bytes(b@),
            r.wf(),
    {
        let snr = snr_from_byte(b[3]);
        UplinkMetadata {
            uplink_id: unpack_id(b[0], b[1]),
            dr: unpack_dr(b[1]),
            rssi: -(b[2] as i16),
            snr,
            channel: b[4],
        }
    }

    /// Encodes the metadata header; each field outside its wire range is
    /// refused, in the order uplink id, data rate, RSSI high, RSSI low,
    /// SNR low, SNR high.
    pub fn to_bytes(&self) -> (r: Result<[u8; 5], Error>)
        ensures
            self.wf() ==> (r matches Ok(b) && b@ == self.spec_bytes()),
            !self.wf() ==> (r matches Err(e) && e == self.spec_to_bytes_err()),
    {
        if self.uplink_id > 4095 {
            return Err(Error::MaxUplinkId);
        }
        if self.dr > 15 {
            return Err(Error::MaxDr);
        }
        if self.rssi > 0 {
            return Err(Error::MaxRssi);
        }
        if self.rssi < -255 {
            return Err(Error::MinRssi);
        }
        if self.snr < -32 {
            return Err(Error::MinSnr);
        }
        if self.snr > 31 {
            return Err(Error::MaxSnr);
        }
        let b = [
            pack_id_hi(self.uplink_id),
            pack_id_lo_dr(self.uplink_id, self.dr),
            (-self.rssi) as u8,
            snr_to_byte(self.snr),
            self.channel,
        ];
        proof {
            assert(b@ =~= self.spec_bytes());
        }
        Ok(b)
    }

    /// Which error `to_bytes` reports for metadata that is not
    /// well-formed.
    pub open spec fn spec_to_bytes_err(&self) -> Error {
        if self.uplink_id > 4095 {
            Error::MaxUplinkId
        } else if self.dr > 15 {
            Error::MaxDr
        } else if self.rssi > 0 {
            Error::MaxRssi
        } else if self.rssi < -255 {
            Error::MinRssi
        } else if self.snr < -32 {
            Error::MinSnr
        } else {
            Error::MaxSnr
        }
    }
}

/// Decoding the five encoded bytes of well-formed uplink metadata gives
/// the metadata back.
pub proof fn lemma_uplink_metadata_round_trip(m: UplinkMetadata)
    requires
        m.wf(),
    ensures
        UplinkMetadata::spec_of_bytes(m.spec_bytes()) == m,
{
    lemma_id_dr_round_trip(m.uplink_id, m.dr);
    lemma_snr_round_trip(m.snr);
}

// --- downlink metadata ---

/// The six-byte metadata header of a downlink payload.
#[derive(Debug, Clone, Copy, PartialEq, Eq, Structural)]
pub struct DownlinkMetadata {
    pub uplink_id: u16,
    pub dr: u8,
    pub frequency: u32,
    pub tx_power: u8,
    pub delay: u8,
}

impl DownlinkMetadata {
    /// The ranges the wire format can carry: a twelve-bit uplink id, a
    /// four-bit data rate, an encodable frequency, a four-bit TX power
    /// index and a delay between one and sixteen seconds.
    pub open spec fn wf(&self) -> bool {
        &&& self.uplink_id <= 4095
        &&& self.dr <= 15
        &&& spec_freq_ok(self.frequency)
        &&& self.tx_power <= 15
        &&& 1 <= self.delay <= 16
    }

    /// The six wire bytes of well-formed metadata.
    pub open spec fn spec_bytes(&self) -> Seq<u8> {
        seq![
            spec_id_hi(self.uplink_id),
            spec_id_lo_dr(self.uplink_id, self.dr),
            spec_freq_bytes(self.frequency)[0],
            spec_freq_bytes(self.frequency)[1],
            spec_freq_bytes(self.frequency)[2],
            ((self.tx_power << 4) | ((self.delay - 1) as u8)) as u8,
        ]
    }

    /// The metadata read from six wire bytes.
    pub open spec fn spec_of_bytes(b: Seq<u8>) -> DownlinkMetadata {
        DownlinkMetadata {
            uplink_id: spec_unpack_id(b[0], b[1]),
            dr: spec_unpack_dr(b[1]),
            frequency: spec_decode_freq(b[2], b[3], b[4]),
            tx_power: ((b[5] & 0xf0) >> 4) as u8,
            delay: ((b[5] & 0x0f) + 1) as u8,
        }
    }

    /// Decodes the six-byte metadata header; every field of the result is
    /// in its wire range.
    pub fn from_bytes(b: [u8; 6]) -> (r: Self)
        ensures
            r == Self::spec_of_bytes(b@),
            r.uplink_id <= 4095,
            r.dr <= 15,
            r.tx_power <= 15,
            1 <= r.delay <= 16,
    {
        let fb: [u8; 3] = [b[2], b[3], b[4]];
        let freq = match decode_freq(fb.as_slice()) {
            Ok(v) => v,
            Err(_) => 0,  // unreachable: the slice holds three bytes
        };
        proof {
            let b5 = b@[5];
            assert((b5 & 0xf0) >> 4 <= 15 && (b5 & 0x0f) + 1 <= 16) by (bit_vector);
        }
        DownlinkMetadata {
            uplink_id: unpack_id(b[0], b[1]),
            dr: unpack_dr(b[1]),
            frequency: freq,
            tx_power: (b[5] & 0xf0) >> 4,
            delay: (b[5] & 0x0f) + 1,
        }
    }

    /// Encodes the metadata header; each field outside its wire range is
    /// refused, in the order uplink id, data rate, delay low, TX power,
    /// delay high, frequency.
    pub fn to_bytes(&self) -> (r: Result<[u8; 6], Error>)
        ensures
            self.wf() ==> (r matches Ok(b) && b@ == self.spec_bytes()),
            !self.wf() ==> (r matches Err(e) && e == self.spec_to_bytes_err()),
    {
        if self.uplink_id > 4095 {
            return Err(Error::MaxUplinkId);
        }
        if self.dr > 15 {
            return Err(Error::MaxDr);
        }
        if self.delay < 1 {
            return Err(Error::MinDelay);
        }
        if self.tx_power > 15 {
            return Err(Error::MaxTxPower);
        }
        if self.delay > 16 {
            return Err(Error::MaxDelay);
        }
        let freq_b = match encode_freq(self.frequency) {
            Ok(v) => v,
            Err(e) => {
                return Err(e);
            },
        };
        let b = [
            pack_id_hi(self.uplink_id),
            pack_id_lo_dr(self.uplink_id, self.dr),
            freq_b[0],
            freq_b[1],
            freq_b[2],
            (self.tx_power << 4) | (self.delay - 1),
        ];
        proof {
            assert(b@ =~= self.spec_bytes());
        }
        Ok(b)
    }

    /// Which error `to_bytes` reports for metadata that is not
    /// well-formed.
    pub open spec fn spec_to_bytes_err(&self) -> Error {
        if self.uplink_id > 4095 {
            Error::MaxUplinkId
        } else if self.dr > 15 {
            Error::MaxDr
        } else if self.delay < 1 {
            Error::MinDelay
        } else if self.tx_power > 15 {
            Error::MaxTxPower
        } else if self.delay > 16 {
            Error::MaxDelay
        } else {
            spec_freq_err(self.frequency)
        }
    }
}

/// Decoding the six encoded bytes of well-formed downlink metadata gives
/// the metadata back, provided the frequency is on a grid that decoding
/// can tell apart (below 1.2 GHz, or in the 2.4 GHz band).
pub proof fn lemma_downlink_metadata_round_trip(m: DownlinkMetadata)
    requires
        m.wf(),
        (m.frequency % 100 == 0 && m.frequency < 1200000000) || (2400000000 <= m.frequency
            < 3355443200 && m.frequency % 200 == 0),
    ensures
        DownlinkMetadata::spec_of_bytes(m.spec_bytes()) == m,
{
    lemma_id_dr_round_trip(m.uplink_id, m.dr);
    lemma_freq_round_trip(m.frequency);
    let p = m.tx_power;
    let d = m.delay;
    assert((((p << 4) | ((d - 1) as u8)) & 0xf0) >> 4 == p && ((((p << 4) | ((d - 1) as u8))
        & 0x0f) + 1) as u8 == d) by (bit_vector)
        requires
            p <= 15,
            1 <= d <= 16,
    ;
}

// --- relay path entries ---

/// One hop of a heartbeat's relay path: the relay that saw the frame and
/// the signal it saw it with.
#[derive(Debug, Clone, Copy, PartialEq, Eq)]
pub struct RelayPath {
    pub relay_id: [u8; 4],
    pub rssi: i16,
    pub snr: i8,
}

impl RelayPath {
    /// The ranges the wire format can carry.
    pub open spec fn wf(&self) -> bool {
        &&& -255 <= self.rssi <= 0
        &&& -32 <= self.snr <= 31
    }

    /// The six wire bytes of a well-formed entry.
    pub open spec fn spec_bytes(&self) -> Seq<u8> {
        seq![
            self.relay_id@[0],
            self.relay_id@[1],
            self.relay_id@[2],
            self.relay_id@[3],
            (-self.rssi) as u8,
            spec_snr_byte(self.snr),
        ]
    }

    /// The entry read from six wire bytes.
    pub open spec fn spec_of_bytes(b: Seq<u8>) -> RelayPath {
        RelayPath {
            relay_id: [b[0], b[1], b[2], b[3]],
            rssi: -(b[4] as i16) as i16,
            snr: spec_snr_of_byte(b[5]),
        }
    }

    /// Decodes a six-byte relay-path entry; the result is always
    /// well-formed.
    pub fn from_bytes(b: [u8; 6]) -> (r: Self)
        ensures
            r == Self::spec_of_bytes(b@),
            r.wf(),
    {
        let snr = snr_from_byte(b[5]);
        RelayPath { relay_id: [b[0], b[1], b[2], b[3]], rssi: -(b[4] as i16), snr }
    }

    /// Encodes a relay-path entry; an RSSI or SNR outside its wire range
    /// is refused.
    pub fn to_bytes(&self) -> (r: Result<[u8; 6], Error>)
        ensures
            self.wf() ==> (r matches Ok(b) && b@ == self.spec_bytes()),
            !self.wf() ==> (r matches Err(e) && e == self.spec_to_bytes_err()),
    {
        if self.rssi > 0 {
            return Err(Error::MaxRssi);
        }
        if self.rssi < -255 {
            return Err(Error::MinRssi);
        }
        if self.snr < -32 {
            return Err(Error::MinSnr);
        }
        if self.snr > 31 {
            return Err(Error::MaxSnr);
        }
        let b = [
            self.relay_id[0],
            self.relay_id[1],
            self.relay_id[2],
            self.relay_id[3],
            (-self.rssi) as u8,
            snr_to_byte(self.snr),
        ];
        proof {
            assert(b@ =~= self.spec_bytes());
        }
        Ok(b)
    }

    /// Which error `to_bytes` reports for an entry that is not
    /// well-formed.
    pub open spec fn spec_to_bytes_err(&self) -> Error {
        if self.rssi > 0 {
            Error::MaxRssi
        } else if self.rssi < -255 {
            Error::MinRssi
        } else if self.snr < -32 {
            Error::MinSnr
        } else {
            Error::MaxSnr
        }
    }
}

/// Decoding the six encoded bytes of a well-formed relay-path entry gives
/// the entry back.
pub proof fn lemma_relay_path_round_trip(p: RelayPath)
    requires
        p.wf(),
    ensures
        RelayPath::spec_of_bytes(p.spec_bytes()) == p,
{
    broadcast use vstd::array::group_array_axioms;

    lemma_snr_round_trip(p.snr);
    assert(RelayPath::spec_of_bytes(p.spec_bytes()).relay_id =~= p.relay_id);
}

// --- shared byte helpers ---

/// Appends all bytes of a slice to a vector.
pub(crate) fn push_bytes(v: &mut Vec<u8>, b: &[u8])
    ensures
        final(v)@ == old(v)@ + b@,
{
    let mut i: usize = 0;
    while i < b.len()
        invariant
            i <= b@.len(),
            v@ =~= old(v)@ + b@.subrange(0, i as int),
        decreases b@.len() - i,
    {
        v.push(b[i]);
        i = i + 1;
    }
    proof {
        assert(v@ =~= old(v)@ + b@);
    }
}

/// The 16-bit value of two big-endian bytes.
pub open spec fn spec_unpack_be16(b0: u8, b1: u8) -> u16 {
    ((b0 as u16) << 8) | (b1 as u16)
}

pub(crate) fn unpack_be16(b0: u8, b1: u8) -> (r: u16)
    ensures
        r == spec_unpack_be16(b0, b1),
{
    ((b0 as u16) << 8) | (b1 as u16)
}

/// The four big-endian bytes of a 32-bit value.
pub open spec fn spec_u32_be_bytes(x: u32) -> Seq<u8> {
    seq![(x >> 24) as u8, (x >> 16) as u8, (x >> 8) as u8, x as u8]
}

/// The 32-bit value of four big-endian bytes.
pub open spec fn spec_u32_of_be(b0: u8, b1: u8, b2: u8, b3: u8) -> u32 {
    ((((b0 as u32) << 24) | ((b1 as u32) << 16)) | ((b2 as u32) << 8)) | (b3 as u32)
}

/// Reading back the four big-endian bytes of a value gives the value.
pub proof fn lemma_u32_be_round_trip(x: u32)
    ensures
        spec_u32_of_be(
            spec_u32_be_bytes(x)[0],
            spec_u32_be_bytes(x)[1],
            spec_u32_be_bytes(x)[2],
            spec_u32_be_bytes(x)[3],
        ) == x,
{
    assert(((((((x >> 24) as u8) as u32) << 24) | ((((x >> 16) as u8) as u32) << 16)) | ((((x
        >> 8) as u8) as u32) << 8)) | ((x as u8) as u32) == x) by (bit_vector);
}

fn u32_to_be(x: u32) -> (r: [u8; 4])
    ensures
        r@ == spec_u32_be_bytes(x),
{
    let r = [(x >> 24) as u8, (x >> 16) as u8, (x >> 8) as u8, x as u8];
    proof {
        assert(r@ =~= spec_u32_be_bytes(x));
    }
    r
}

fn u32_from_be(b0: u8, b1: u8, b2: u8, b3: u8) -> (r: u32)
    ensures
        r == spec_u32_of_be(b0, b1, b2, b3),
{
    ((((b0 as u32) << 24) | ((b1 as u32) << 16)) | ((b2 as u32) << 8)) | (b3 as u32)
}

/// Whether two relay ids hold the same four bytes.
pub fn relay_ids_equal(a: &[u8; 4], b: &[u8; 4]) -> (r: bool)
    ensures
        r == (a@ == b@),
{
    let mut i: usize = 0;
    while i < 4
        invariant
            i <= 4,
            forall|j: int| 0 <= j < i ==> a@[j] == b@[j],
        decreases 4 - i,
    {
        if a[i] != b[i] {
            proof {
                assert(a@[i as int] != b@[i as int]);
            }
            return false;
        }
        i = i + 1;
    }
    proof {
        assert(a@ =~= b@);
    }
    true
}

// --- uplink payload ---

/// An uplink payload: metadata, originating relay id and the encapsulated
/// LoRaWAN frame.
#[derive(Debug, Clone, PartialEq, Eq)]
pub struct UplinkPayload {
    pub metadata: UplinkMetadata,
    pub relay_id: [u8; 4],
    pub phy_payload: Vec<u8>,
}

/// The mathematical value of an uplink payload.
pub struct UplinkPayloadView {
    pub metadata: UplinkMetadata,
    pub relay_id: Seq<u8>,
    pub phy_payload: Seq<u8>,
}

impl View for UplinkPayload {
    type V = UplinkPayloadView;

    open spec fn view(&self) -> UplinkPayloadView {
        UplinkPayloadView {
            metadata: self.metadata,
            relay_id: self.relay_id@,
            phy_payload: self.phy_payload@,
        }
    }
}

impl UplinkPayloadView {
    /// A payload the wire format can carry.
    pub open spec fn wf(&self) -> bool {
        self.metadata.wf() && self.relay_id.len() == 4
    }

    /// The wire bytes: five metadata bytes, four relay-id bytes, then the
    /// frame.
    pub open spec fn spec_bytes(&self) -> Seq<u8> {
        self.metadata.spec_bytes() + self.relay_id + self.phy_payload
    }

    /// The payload parsed from wire bytes: at least nine bytes.
    pub open spec fn spec_parse(b: Seq<u8>) -> Option<UplinkPayloadView> {
        if b.len() < 9 {
            None
        } else {
            Some(
                UplinkPayloadView {
                    metadata: UplinkMetadata::spec_of_bytes(b.subrange(0, 5)),
                    relay_id: b.subrange(5, 9),
                    phy_payload: b.subrange(9, b.len() as int),
                },
            )
        }
    }
}

/// Parsing the encoded bytes of a well-formed uplink payload gives the
/// payload back.
pub proof fn lemma_uplink_payload_round_trip(p: UplinkPayloadView)
    requires
        p.wf(),
    ensures
        UplinkPayloadView::spec_parse(p.spec_bytes()) == Some(p),
{
    let b = p.spec_bytes();
    assert(b.subrange(0, 5) =~= p.metadata.spec_bytes());
    assert(b.subrange(5, 9) =~= p.relay_id);
    assert(b.subrange(9, b.len() as int) =~= p.phy_payload);
    lemma_uplink_metadata_round_trip(p.metadata);
}

impl UplinkPayload {
    /// Decodes an uplink payload; fewer than nine bytes are refused.
    pub fn from_slice(b: &[u8]) -> (r: Result<UplinkPayload, Error>)
        ensures
            r matches Ok(p) ==> UplinkPayloadView::spec_parse(b@) == Some(p@) && p@.wf(),
            r is Err ==> UplinkPayloadView::spec_parse(b@) is None && r == Err::<Self, Error>(
                Error::UplinkPayloadTooShort,
            ),
    {
        if b.len() < 9 {
            return Err(Error::UplinkPayloadTooShort);
        }
        let md: [u8; 5] = [b[0], b[1], b[2], b[3], b[4]];
        proof {
            assert(md@ =~= b@.subrange(0, 5));
        }
        let mut phy: Vec<u8> = Vec::new();
        let mut i: usize = 9;
        while i < b.len()
            invariant
                9 <= i <= b@.len(),
                phy@ =~= b@.subrange(9, i as int),
            decreases b@.len() - i,
        {
            phy.push(b[i]);
            i = i + 1;
        }
        let p = UplinkPayload {
            metadata: UplinkMetadata::from_bytes(md),
            relay_id: [b[5], b[6], b[7], b[8]],
            phy_payload: phy,
        };
        proof {
            assert(p@.relay_id =~= b@.subrange(5, 9));
            assert(p@.phy_payload =~= b@.subrange(9, b@.len() as int));
        }
        Ok(p)
    }

    /// Encodes an uplink payload; metadata outside the wire ranges is
    /// refused.
    pub fn to_vec(&self) -> (r: Result<Vec<u8>, Error>)
        ensures
            self@.wf() ==> (r matches Ok(v) && v@ == self@.spec_bytes()),
            !self@.wf() ==> (r matches Err(e) && e == self.metadata.spec_to_bytes_err()),
    {
        let md = match self.metadata.to_bytes() {
            Ok(v) => v,
            Err(e) => {
                return Err(e);
            },
        };
        let mut b: Vec<u8> = Vec::new();
        push_bytes(&mut b, md.as_slice());
        push_bytes(&mut b, self.relay_id.as_slice());
        push_bytes(&mut b, self.phy_payload.as_slice());
        proof {
            assert(b@ =~= self@.spec_bytes());
        }
        Ok(b)
    }
}

// --- downlink payload ---

/// A downlink payload: metadata, target relay id and the encapsulated
/// LoRaWAN frame.
#[derive(Debug, Clone, PartialEq, Eq)]
pub struct DownlinkPayload {
    pub metadata: DownlinkMetadata,
    pub relay_id: [u8; 4],
    pub phy_payload: Vec<u8>,
}

/// The mathematical value of a downlink payload.
pub struct DownlinkPayloadView {
    pub metadata: DownlinkMetadata,
    pub relay_id: Seq<u8>,
    pub phy_payload: Seq<u8>,
}

impl View for DownlinkPayload {
    type V = DownlinkPayloadView;

    open spec fn view(&self) -> DownlinkPayloadView {
        DownlinkPayloadView {
            metadata: self.metadata,
            relay_id: self.relay_id@,
            phy_payload: self.phy_payload@,
        }
    }
}

impl DownlinkPayloadView {
    /// A payload the wire format can carry.
    pub open spec fn wf(&self) -> bool {
        self.metadata.wf() && self.relay_id.len() == 4
    }

    /// The wire bytes: six metadata bytes, four relay-id bytes, then the
    /// frame.
    pub open spec fn spec_bytes(&self) -> Seq<u8> {
        self.metadata.spec_bytes() + self.relay_id + self.phy_payload
    }

    /// The payload parsed from wire bytes: at least ten bytes.
    pub open spec fn spec_parse(b: Seq<u8>) -> Option<DownlinkPayloadView> {
        if b.len() < 10 {
            None
        } else {
            Some(
                DownlinkPayloadView {
                    metadata: DownlinkMetadata::spec_of_bytes(b.subrange(0, 6)),
                    relay_id: b.subrange(6, 10),
                    phy_payload: b.subrange(10, b.len() as int),
                },
            )
        }
    }
}

/// Parsing the encoded bytes of a well-formed downlink payload gives the
/// payload back, under the frequency-grid condition of the metadata round
/// trip.
pub proof fn lemma_downlink_payload_round_trip(p: DownlinkPayloadView)
    requires
        p.wf(),
        (p.metadata.frequency % 100 == 0 && p.metadata.frequency < 1200000000) || (2400000000
            <= p.metadata.frequency < 3355443200 && p.metadata.frequency % 200 == 0),
    ensures
        DownlinkPayloadView::spec_parse(p.spec_bytes()) == Some(p),
{
    let b = p.spec_bytes();
    assert(b.subrange(0, 6) =~= p.metadata.spec_bytes());
    assert(b.subrange(6, 10) =~= p.relay_id);
    assert(b.subrange(10, b.len() as int) =~= p.phy_payload);
    lemma_downlink_metadata_round_trip(p.metadata);
}

impl DownlinkPayload {
    /// Decodes a downlink payload; fewer than ten bytes are refused.
    pub fn from_slice(b: &[u8]) -> (r: Result<DownlinkPayload, Error>)
        ensures
            r matches Ok(p) ==> DownlinkPayloadView::spec_parse(b@) == Some(p@),
            r is Err ==> DownlinkPayloadView::spec_parse(b@) is None && r == Err::<Self, Error>(
                Error::DownlinkPayloadTooShort,
            ),
    {
        if b.len() < 10 {
            return Err(Error::DownlinkPayloadTooShort);
        }
        let md: [u8; 6] = [b[0], b[1], b[2], b[3], b[4], b[5]];
        proof {
            assert(md@ =~= b@.subrange(0, 6));
        }
        let mut phy: Vec<u8> = Vec::new();
        let mut i: usize = 10;
        while i < b.len()
            invariant
                10 <= i <= b@.len(),
                phy@ =~= b@.subrange(10, i as int),
            decreases b@.len() - i,
        {
            phy.push(b[i]);
            i = i + 1;
        }
        let p = DownlinkPayload {
            metadata: DownlinkMetadata::from_bytes(md),
            relay_id: [b[6], b[7], b[8], b[9]],
            phy_payload: phy,
        };
        proof {
            assert(p@.relay_id =~= b@.subrange(6, 10));
            assert(p@.phy_payload =~= b@.subrange(10, b@.len() as int));
        }
        Ok(p)
    }

    /// Encodes a downlink payload; metadata outside the wire ranges is
    /// refused.
    pub fn to_vec(&self) -> (r: Result<Vec<u8>, Error>)
        ensures
            self@.wf() ==> (r matches Ok(v) && v@ == self@.spec_bytes()),
            !self@.wf() ==> (r matches Err(e) && e == self.metadata.spec_to_bytes_err()),
    {
        let md = match self.metadata.to_bytes() {
            Ok(v) => v,
            Err(e) => {
                return Err(e);
            },
        };
        let mut b: Vec<u8> = Vec::new();
        push_bytes(&mut b, md.as_slice());
        push_bytes(&mut b, self.relay_id.as_slice());
        push_bytes(&mut b, self.phy_payload.as_slice());
        proof {
            assert(b@ =~= self@.spec_bytes());
        }
        Ok(b)
    }
}

// --- counter-mode encryption of event and command lists ---

/// The pre-counter block of the counter mode: byte 0 is one, byte 5 flags
/// a command payload, bytes 6 to 9 hold the relay id, bytes 10 to 13 the
/// big-endian timestamp, and byte 15 the one-based block counter.
pub open spec fn spec_a_block(is_command: bool, relay_id: Seq<u8>, timestamp: u32, counter: u8) -> Seq<u8> {
    Seq::new(
        16,
        |i: int|
            if i == 0 {
                1u8
            } else if i == 5 {
                if is_command {
                    1u8
                } else {
                    0u8
                }
            } else if 6 <= i < 10 {
                relay_id[i - 6]
            } else if 10 <= i < 14 {
                spec_u32_be_bytes(timestamp)[i - 10]
            } else if i == 15 {
                counter
            } else {
                0u8
            },
    )
}

/// The keystream byte at position `i`: byte `i % 16` of the encrypted
/// pre-counter block of block `i / 16`, whose counter wraps at 256.
pub open spec fn spec_keystream_byte(
    key: Seq<u8>,
    is_command: bool,
    relay_id: Seq<u8>,
    timestamp: u32,
    i: int,
) -> u8 {
    aes128_block(
        key,
        spec_a_block(is_command, relay_id, timestamp, ((i / 16 + 1) % 256) as u8),
    )[i % 16]
}

/// Counter-mode encryption: each byte XORed with its keystream byte.  The
/// operation is its own inverse.
pub open spec fn spec_crypt(
    key: Seq<u8>,
    is_command: bool,
    relay_id: Seq<u8>,
    timestamp: u32,
    data: Seq<u8>,
) -> Seq<u8> {
    Seq::new(
        data.len(),
        |i: int| data[i] ^ spec_keystream_byte(key, is_command, relay_id, timestamp, i),
    )
}

/// XOR with the same byte twice gives the original byte back.
proof fn lemma_xor_involution()
    by (bit_vector)
    ensures
        forall|a: u8, b: u8| #[trigger] ((a ^ b) ^ b) == a,
{
}

/// Applying the counter-mode operation twice gives the data back.
pub proof fn lemma_crypt_involution(
    key: Seq<u8>,
    is_command: bool,
    relay_id: Seq<u8>,
    timestamp: u32,
    data: Seq<u8>,
)
    ensures
        spec_crypt(
            key,
            is_command,
            relay_id,
            timestamp,
            spec_crypt(key, is_command, relay_id, timestamp, data),
        ) =~= data,
{
    lemma_xor_involution();
}

fn build_a_block(is_command: bool, relay_id: &[u8; 4], timestamp: u32, counter: u8) -> (r: [u8; 16])
    ensures
        r@ == spec_a_block(is_command, relay_id@, timestamp, counter),
{
    let ts = u32_to_be(timestamp);
    let r = [
        1u8,
        0u8,
        0u8,
        0u8,
        0u8,
        if is_command {
            1u8
        } else {
            0u8
        },
        relay_id[0],
        relay_id[1],
        relay_id[2],
        relay_id[3],
        ts[0],
        ts[1],
        ts[2],
        ts[3],
        0u8,
        counter,
    ];
    proof {
        assert(r@ =~= spec_a_block(is_command, relay_id@, timestamp, counter));
    }
    r
}

/// Encrypts or decrypts a byte string in counter mode with the given key
/// and payload parameters.
fn crypt_bytes(
    key: &Aes128Key,
    is_command: bool,
    relay_id: &[u8; 4],
    timestamp: u32,
    data: &[u8],
) -> (r: Vec<u8>)
    ensures
        r@ == spec_crypt(key@, is_command, relay_id@, timestamp, data@),
{
    let mut out: Vec<u8> = Vec::new();
    let mut block: [u8; 16] = [0; 16];
    let mut i: usize = 0;
    while i < data.len()
        invariant
            i <= data@.len(),
            out@.len() == i,
            i % 16 != 0 ==> block@ == aes128_block(
                key@,
                spec_a_block(is_command, relay_id@, timestamp, ((i / 16 + 1) % 256) as u8),
            ),
            forall|k: int| 0 <= k < i ==> out@[k] == (data@[k] ^ spec_keystream_byte(
                key@,
                is_command,
                relay_id@,
                timestamp,
                k,
            )),
        decreases data@.len() - i,
    {
        if i % 16 == 0 {
            let counter: u8 = ((i / 16 + 1) % 256) as u8;
            let a = build_a_block(is_command, relay_id, timestamp, counter);
            block = crate::aes128::aes128_encrypt_block(key, &a);
        }
        proof {
            assert((i as int) / 16 == (i / 16) as int && (i as int) % 16 == (i % 16) as int);
            assert(spec_keystream_byte(key@, is_command, relay_id@, timestamp, i as int)
                == block@[(i % 16) as int]);
        }
        out.push(data[i] ^ block[i % 16]);
        i = i + 1;
        proof {
            if i % 16 != 0 {
                assert(i / 16 == (i - 1) / 16) by (nonlinear_arith)
                    requires
                        i >= 1,
                        i % 16 != 0,
                ;
            }
        }
    }
    proof {
        assert(out@ =~= spec_crypt(key@, is_command, relay_id@, timestamp, data@));
    }
    out
}

// --- heartbeat payload ---

/// The value of a heartbeat event: the path of relays the frame has
/// passed, each with the signal it saw.
#[derive(Debug, Clone, PartialEq, Eq)]
pub struct HeartbeatPayload {
    pub relay_path: Vec<RelayPath>,
}

impl View for HeartbeatPayload {
    type V = Seq<RelayPath>;

    open spec fn view(&self) -> Seq<RelayPath> {
        self.relay_path@
    }
}

/// The wire bytes of a relay path: six bytes for each entry, in order.
pub open spec fn spec_relay_paths_bytes(ps: Seq<RelayPath>) -> Seq<u8>
    decreases ps.len(),
{
    if ps.len() == 0 {
        Seq::empty()
    } else {
        ps[0].spec_bytes() + spec_relay_paths_bytes(ps.drop_first())
    }
}

/// The relay path parsed from wire bytes: six bytes an entry, or nothing
/// if the length is not a multiple of six.
pub open spec fn spec_parse_relay_paths(b: Seq<u8>) -> Option<Seq<RelayPath>>
    decreases b.len(),
{
    if b.len() == 0 {
        Some(Seq::empty())
    } else if b.len() < 6 {
        None
    } else {
        match spec_parse_relay_paths(b.skip(6)) {
            None => None,
            Some(r) => Some(seq![RelayPath::spec_of_bytes(b.take(6))] + r),
        }
    }
}

/// A relay path always encodes to six bytes an entry.
pub proof fn lemma_relay_paths_bytes_len(ps: Seq<RelayPath>)
    ensures
        spec_relay_paths_bytes(ps).len() == 6 * ps.len(),
    decreases ps.len(),
{
    if ps.len() > 0 {
        lemma_relay_paths_bytes_len(ps.drop_first());
    }
}

/// Appending one entry appends its six bytes.
pub proof fn lemma_relay_paths_bytes_snoc(ps: Seq<RelayPath>, p: RelayPath)
    ensures
        spec_relay_paths_bytes(ps.push(p)) == spec_relay_paths_bytes(ps) + p.spec_bytes(),
    decreases ps.len(),
{
    if ps.len() == 0 {
        assert(ps.push(p).drop_first() =~= Seq::<RelayPath>::empty());
        assert(ps.push(p)[0] == p);
        assert(spec_relay_paths_bytes(Seq::<RelayPath>::empty()) =~= Seq::<u8>::empty());
        assert(spec_relay_paths_bytes(ps.push(p)) =~= spec_relay_paths_bytes(ps)
            + p.spec_bytes());
    } else {
        assert(ps.push(p).drop_first() =~= ps.drop_first().push(p));
        assert(ps.push(p)[0] == ps[0]);
        lemma_relay_paths_bytes_snoc(ps.drop_first(), p);
        assert(spec_relay_paths_bytes(ps.push(p)) =~= spec_relay_paths_bytes(ps)
            + p.spec_bytes());
    }
}

/// A byte string whose length is a multiple of six parses to a relay
/// path.
pub proof fn lemma_parse_relay_paths_multiple(b: Seq<u8>)
    requires
        b.len() % 6 == 0,
    ensures
        spec_parse_relay_paths(b) is Some,
    decreases b.len(),
{
    if b.len() > 0 {
        assert(b.len() >= 6) by (nonlinear_arith)
            requires
                b.len() % 6 == 0,
                b.len() > 0,
        ;
        assert(b.skip(6).len() % 6 == 0) by (nonlinear_arith)
            requires
                b.len() % 6 == 0,
                b.len() >= 6,
                b.skip(6).len() == b.len() - 6,
        ;
        lemma_parse_relay_paths_multiple(b.skip(6));
    }
}

/// Parsing the encoded bytes of a well-formed relay path gives the path
/// back.
#[verifier::rlimit(50)]
pub proof fn lemma_relay_paths_round_trip(ps: Seq<RelayPath>)
    requires
        forall|i: int| 0 <= i < ps.len() ==> ps[i].wf(),
    ensures
        spec_parse_relay_paths(spec_relay_paths_bytes(ps)) == Some(ps),
    decreases ps.len(),
{
    if ps.len() == 0 {
        assert(spec_relay_paths_bytes(ps).len() == 0);
    } else {
        let b = spec_relay_paths_bytes(ps);
        lemma_relay_paths_bytes_len(ps);
        lemma_relay_paths_round_trip(ps.drop_first());
        lemma_relay_paths_bytes_len(ps.drop_first());
        assert(b.skip(6) =~= spec_relay_paths_bytes(ps.drop_first()));
        assert(b.take(6) =~= ps[0].spec_bytes());
        lemma_relay_path_round_trip(ps[0]);
        assert(seq![ps[0]] + ps.drop_first() =~= ps);
    }
}

impl HeartbeatPayload {
    /// A relay path the wire format can carry inside one event value:
    /// every entry well-formed, and at most 42 entries so the six-byte
    /// entries fit a one-byte length.
    pub open spec fn wf(ps: Seq<RelayPath>) -> bool {
        (forall|i: int| 0 <= i < ps.len() ==> ps[i].wf()) && 6 * ps.len() <= 255
    }

    /// Decodes a relay path; a length that is not a multiple of six is
    /// refused.
    pub fn from_slice(b: &[u8]) -> (r: Result<HeartbeatPayload, Error>)
        ensures
            r matches Ok(p) ==> spec_parse_relay_paths(b@) == Some(p@),
            r is Err ==> spec_parse_relay_paths(b@) is None && r == Err::<Self, Error>(
                Error::InvalidRelayPathBytes,
            ),
    {
        if b.len() % 6 != 0 {
            proof {
                lemma_parse_relay_paths_not_multiple(b@);
            }
            return Err(Error::InvalidRelayPathBytes);
        }
        let mut path: Vec<RelayPath> = Vec::new();
        let mut i: usize = 0;
        proof {
            assert(b@.skip(0) =~= b@);
            lemma_parse_relay_paths_multiple(b@);
            assert(path@ + spec_parse_relay_paths(b@)->Some_0 =~= spec_parse_relay_paths(
                b@,
            )->Some_0);
        }
        while i < b.len()
            invariant
                i <= b@.len(),
                i % 6 == 0,
                b@.len() % 6 == 0,
                spec_parse_relay_paths(b@.skip(i as int)) is Some,
                spec_parse_relay_paths(b@) == Some(
                    path@ + spec_parse_relay_paths(b@.skip(i as int))->Some_0,
                ),
            decreases b@.len() - i,
        {
            proof {
                assert(b@.len() - i >= 6) by (nonlinear_arith)
                    requires
                        i < b@.len(),
                        i % 6 == 0,
                        b@.len() % 6 == 0,
                ;
            }
            let e: [u8; 6] = [b[i], b[i + 1], b[i + 2], b[i + 3], b[i + 4], b[i + 5]];
            proof {
                assert(e@ =~= b@.skip(i as int).take(6));
                assert(b@.skip(i as int).skip(6) =~= b@.skip(i as int + 6));
                assert((b@.len() - (i + 6)) % 6 == 0) by (nonlinear_arith)
                    requires
                        i % 6 == 0,
                        b@.len() % 6 == 0,
                        i + 6 <= b@.len(),
                ;
                lemma_parse_relay_paths_multiple(b@.skip(i as int + 6));
            }
            let p = RelayPath::from_bytes(e);
            path.push(p);
            proof {
                let rest = spec_parse_relay_paths(b@.skip(i as int + 6))->Some_0;
                assert(spec_parse_relay_paths(b@.skip(i as int)) == Some(seq![p] + rest));
                assert(path@ + rest =~= path@.drop_last() + (seq![p] + rest));
            }
            i = i + 6;
        }
        proof {
            assert(b@.skip(i as int) =~= Seq::<u8>::empty());
            assert(path@ + Seq::<RelayPath>::empty() =~= path@);
        }
        Ok(HeartbeatPayload { relay_path: path })
    }

    /// Encodes a relay path; an entry outside the wire ranges is refused.
    pub fn to_vec(&self) -> (r: Result<Vec<u8>, Error>)
        ensures
            (forall|i: int| 0 <= i < self@.len() ==> self@[i].wf()) ==> r is Ok,
            r matches Ok(v) ==> v@ == spec_relay_paths_bytes(self@) && (forall|i: int|
                0 <= i < self@.len() ==> self@[i].wf()),
    {
        let mut b: Vec<u8> = Vec::new();
        let mut i: usize = 0;
        while i < self.relay_path.len()
            invariant
                i <= self@.len(),
                b@ == spec_relay_paths_bytes(self@.take(i as int)),
                forall|j: int| 0 <= j < i ==> self@[j].wf(),
            decreases self@.len() - i,
        {
            let eb = match self.relay_path[i].to_bytes() {
                Ok(v) => v,
                Err(e) => {
                    return Err(e);
                },
            };
            push_bytes(&mut b, eb.as_slice());
            proof {
                lemma_relay_paths_bytes_snoc(self@.take(i as int), self@[i as int]);
                assert(self@.take(i as int).push(self@[i as int]) =~= self@.take(i as int + 1));
            }
            i = i + 1;
        }
        proof {
            assert(self@.take(i as int) =~= self@);
        }
        Ok(b)
    }
}

/// A byte string whose length is not a multiple of six parses to no relay
/// path.
pub proof fn lemma_parse_relay_paths_not_multiple(b: Seq<u8>)
    requires
        b.len() % 6 != 0,
    ensures
        spec_parse_relay_paths(b) is None,
    decreases b.len(),
{
    if b.len() >= 6 {
        assert(b.skip(6).len() % 6 != 0) by (nonlinear_arith)
            requires
                b.len() % 6 != 0,
                b.len() >= 6,
                b.skip(6).len() == b.len() - 6,
        ;
        lemma_parse_relay_paths_not_multiple(b.skip(6));
    }
}

// --- events ---

/// One event of an event payload.  Type zero is the heartbeat; any other
/// type is proprietary and opaque.  Before transport the whole list is
/// encrypted into a single opaque blob.
#[derive(Debug, Clone, PartialEq, Eq)]
pub enum Event {
    Heartbeat(HeartbeatPayload),
    Proprietary(u8, Vec<u8>),
    Encrypted(Vec<u8>),
}

/// The mathematical value of an event.
pub enum EventView {
    Heartbeat(Seq<RelayPath>),
    Proprietary(u8, Seq<u8>),
    Encrypted(Seq<u8>),
}

impl View for Event {
    type V = EventView;

    open spec fn view(&self) -> EventView {
        match self {
            Event::Heartbeat(hb) => EventView::Heartbeat(hb@),
            Event::Proprietary(t, v) => EventView::Proprietary(*t, v@),
            Event::Encrypted(b) => EventView::Encrypted(b@),
        }
    }
}

impl DeepView for Event {
    type V = EventView;

    open spec fn deep_view(&self) -> EventView {
        self.view()
    }
}

impl EventView {
    /// A plaintext event the TLV form can carry: a heartbeat whose path
    /// fits a one-byte length, or a proprietary event of a non-zero type
    /// whose value fits a one-byte length.  An encrypted blob is not
    /// plaintext.
    pub open spec fn wf(&self) -> bool {
        match self {
            EventView::Heartbeat(ps) => HeartbeatPayload::wf(*ps),
            EventView::Proprietary(t, v) => *t != 0 && v.len() <= 255,
            EventView::Encrypted(_) => false,
        }
    }

    /// The wire bytes of one event: type, length, value for the plain
    /// forms; an encrypted blob stands as it is.
    pub open spec fn spec_bytes(&self) -> Seq<u8> {
        match self {
            EventView::Heartbeat(ps) => seq![0u8, (6 * ps.len()) as u8]
                + spec_relay_paths_bytes(*ps),
            EventView::Proprietary(t, v) => seq![*t, v.len() as u8] + *v,
            EventView::Encrypted(b) => *b,
        }
    }
}

/// The wire bytes of an event list: each event's bytes, in order.
pub open spec fn spec_events_bytes(es: Seq<EventView>) -> Seq<u8>
    decreases es.len(),
{
    if es.len() == 0 {
        Seq::empty()
    } else {
        es[0].spec_bytes() + spec_events_bytes(es.drop_first())
    }
}

/// The event list parsed from a decrypted blob: a sequence of TLV
/// entries, heartbeats for type zero, proprietary events otherwise.
pub open spec fn spec_parse_events(b: Seq<u8>) -> Option<Seq<EventView>>
    decreases b.len(),
{
    if b.len() == 0 {
        Some(Seq::empty())
    } else if b.len() < 2 {
        None
    } else {
        let t = b[0];
        let l = b[1] as int;
        if b.len() < 2 + l {
            None
        } else {
            let v = b.subrange(2, 2 + l);
            match spec_parse_events(b.skip(2 + l)) {
                None => None,
                Some(rest) => if t == 0 {
                    match spec_parse_relay_paths(v) {
                        None => None,
                        Some(ps) => Some(seq![EventView::Heartbeat(ps)] + rest),
                    }
                } else {
                    Some(seq![EventView::Proprietary(t, v)] + rest)
                },
            }
        }
    }
}

impl Event {
    /// Encodes one event as a TLV entry; a heartbeat path or value too
    /// long for the one-byte length, or an entry outside the wire
    /// ranges, is refused.  An encrypted blob encodes as its raw bytes.
    pub fn to_vec(&self) -> (r: Result<Vec<u8>, Error>)
        ensures
            self@.wf() ==> r is Ok,
            self matches Event::Encrypted(_) ==> r is Ok,
            r matches Ok(v) ==> v@ == self@.spec_bytes(),
    {
        match self {
            Event::Heartbeat(hb) => {
                let value = match hb.to_vec() {
                    Ok(v) => v,
                    Err(e) => {
                        return Err(e);
                    },
                };
                if value.len() > 255 {
                    proof {
                        lemma_relay_paths_bytes_len(hb@);
                    }
                    return Err(Error::ValueTooLong);
                }
                let mut b: Vec<u8> = Vec::new();
                b.push(0u8);
                b.push(value.len() as u8);
                push_bytes(&mut b, value.as_slice());
                proof {
                    lemma_relay_paths_bytes_len(hb@);
                    assert(b@ =~= self@.spec_bytes());
                }
                Ok(b)
            },
            Event::Proprietary(t, val) => {
                if val.len() > 255 {
                    return Err(Error::ValueTooLong);
                }
                let mut b: Vec<u8> = Vec::new();
                b.push(*t);
                b.push(val.len() as u8);
                push_bytes(&mut b, val.as_slice());
                proof {
                    assert(b@ =~= self@.spec_bytes());
                }
                Ok(b)
            },
            Event::Encrypted(raw) => {
                let mut b: Vec<u8> = Vec::new();
                push_bytes(&mut b, raw.as_slice());
                proof {
                    assert(b@ =~= raw@);
                }
                Ok(b)
            },
        }
    }
}

/// An event that `to_vec` accepts: well-formed plaintext or an
/// encrypted blob.
pub open spec fn event_encodable(e: EventView) -> bool {
    e.wf() || e matches EventView::Encrypted(_)
}

/// Serializes a list of plaintext events into TLV bytes.
fn events_to_bytes(events: &Vec<Event>) -> (r: Result<Vec<u8>, Error>)
    ensures
        r matches Ok(v) ==> v@ == spec_events_bytes(events.deep_view()),
        (forall|j: int|
            0 <= j < events.deep_view().len() ==> event_encodable(
                #[trigger] events.deep_view()[j],
            )) ==> r is Ok,
{
    let ghost evs = events.deep_view();
    let mut b: Vec<u8> = Vec::new();
    let mut i: usize = 0;
    while i < events.len()
        invariant
            i <= events@.len(),
            evs == events.deep_view(),
            evs.len() == events@.len(),
            forall|j: int| 0 <= j < evs.len() ==> evs[j] == events@[j]@,
            b@ == spec_events_bytes(evs.take(i as int)),
        decreases events@.len() - i,
    {
        let eb = match events[i].to_vec() {
            Ok(v) => v,
            Err(e) => {
                proof {
                    assert(!event_encodable(evs[i as int]));
                }
                return Err(e);
            },
        };
        push_bytes(&mut b, eb.as_slice());
        proof {
            lemma_events_bytes_snoc(evs.take(i as int), evs[i as int]);
            assert(evs.take(i as int).push(evs[i as int]) =~= evs.take(i as int + 1));
        }
        i = i + 1;
    }
    proof {
        assert(evs.take(i as int) =~= evs);
    }
    Ok(b)
}

/// Appending one event appends its bytes.
pub proof fn lemma_events_bytes_snoc(es: Seq<EventView>, e: EventView)
    ensures
        spec_events_bytes(es.push(e)) == spec_events_bytes(es) + e.spec_bytes(),
    decreases es.len(),
{
    if es.len() == 0 {
        assert(es.push(e).drop_first() =~= Seq::<EventView>::empty());
        assert(es.push(e)[0] == e);
        assert(spec_events_bytes(Seq::<EventView>::empty()) =~= Seq::<u8>::empty());
        assert(spec_events_bytes(es.push(e)) =~= spec_events_bytes(es) + e.spec_bytes());
    } else {
        assert(es.push(e).drop_first() =~= es.drop_first().push(e));
        assert(es.push(e)[0] == es[0]);
        lemma_events_bytes_snoc(es.drop_first(), e);
        assert(spec_events_bytes(es.push(e)) =~= spec_events_bytes(es) + e.spec_bytes());
    }
}

/// Parsing the encoded bytes of a list of well-formed plaintext events
/// gives the list back.
#[verifier::rlimit(50)]
pub proof fn lemma_events_round_trip(es: Seq<EventView>)
    requires
        forall|i: int| 0 <= i < es.len() ==> es[i].wf(),
    ensures
        spec_parse_events(spec_events_bytes(es)) == Some(es),
    decreases es.len(),
{
    if es.len() == 0 {
    } else {
        let hd = es[0];
        let hb = hd.spec_bytes();
        let rest = spec_events_bytes(es.drop_first());
        let b = spec_events_bytes(es);
        lemma_events_round_trip(es.drop_first());
        match hd {
            EventView::Heartbeat(ps) => {
                lemma_relay_paths_bytes_len(ps);
                lemma_relay_paths_round_trip(ps);
                assert(b[0] == 0u8 && b[1] == (6 * ps.len()) as u8);
                assert(b.len() == 2 + 6 * ps.len() + rest.len());
                assert(b.subrange(2, 2 + 6 * ps.len() as int) =~= spec_relay_paths_bytes(ps));
                assert(b.skip(2 + 6 * ps.len() as int) =~= rest);
                assert(seq![EventView::Heartbeat(ps)] + es.drop_first() =~= es);
            },
            EventView::Proprietary(t, v) => {
                assert(b[0] == t && b[1] == v.len() as u8);
                assert(b.len() == 2 + v.len() + rest.len());
                assert(b.subrange(2, 2 + v.len() as int) =~= v);
                assert(b.skip(2 + v.len() as int) =~= rest);
                assert(seq![EventView::Proprietary(t, v)] + es.drop_first() =~= es);
            },
            EventView::Encrypted(_) => {
                assert(false);
            },
        }
    }
}

/// Parses a decrypted blob into its event list.
fn parse_events(b: &[u8]) -> (r: Result<Vec<Event>, Error>)
    ensures
        r matches Ok(v) ==> spec_parse_events(b@) == Some(v.deep_view()),
        r is Err ==> spec_parse_events(b@) is None,
{
    let n: usize = b.len();
    let mut out: Vec<Event> = Vec::new();
    let mut i: usize = 0;
    proof {
        assert(b@.skip(0) =~= b@);
    }
    while i < b.len()
        invariant
            b@.len() == n,
            i <= b@.len(),
            out.deep_view().len() == out@.len(),
            forall|j: int| 0 <= j < out@.len() ==> out.deep_view()[j] == out@[j]@,
            forall|rest: Seq<EventView>|
                spec_parse_events(b@.skip(i as int)) == Some(rest) ==> spec_parse_events(b@)
                    == Some(out.deep_view() + rest),
            spec_parse_events(b@.skip(i as int)) is None ==> spec_parse_events(b@) is None,
        decreases b@.len() - i,
    {
        if b.len() - i < 2 {
            return Err(Error::TruncatedTlv);
        }
        let t = b[i];
        let l = b[i + 1] as usize;
        if b.len() - i - 2 < l {
            return Err(Error::TruncatedTlv);
        }
        let mut value: Vec<u8> = Vec::new();
        let mut k: usize = 0;
        while k < l
            invariant
                k <= l,
                b@.len() == n,
                i + 2 + l <= b@.len(),
                value@ =~= b@.subrange(i + 2, i + 2 + k as int),
            decreases l - k,
        {
            value.push(b[i + 2 + k]);
            k = k + 1;
        }
        let ghost prev = i as int;
        let ghost bi = b@.skip(prev);
        proof {
            assert(bi.len() >= 2 && bi[0] == t && bi[1] == l as u8);
            assert(bi.subrange(2, 2 + l as int) =~= value@);
            assert(bi.skip(2 + l as int) =~= b@.skip(prev + 2 + l as int));
        }
        let e = if t == 0 {
            match HeartbeatPayload::from_slice(value.as_slice()) {
                Ok(hb) => Event::Heartbeat(hb),
                Err(e) => {
                    proof {
                        assert(spec_parse_events(bi) is None);
                    }
                    return Err(e);
                },
            }
        } else {
            Event::Proprietary(t, value)
        };
        let ghost old_out = out.deep_view();
        out.push(e);
        proof {
            assert(out.deep_view() =~= old_out.push(e@));
            let rest_b = b@.skip(prev + 2 + l as int);
            assert forall|rest: Seq<EventView>|
                spec_parse_events(rest_b) == Some(rest) implies spec_parse_events(b@) == Some(
                out.deep_view() + rest,
            ) by {
                assert(spec_parse_events(bi) == Some(seq![e@] + rest));
                assert(spec_parse_events(b@) == Some(old_out + (seq![e@] + rest)));
                assert(out.deep_view() + rest =~= old_out + (seq![e@] + rest));
            }
            if spec_parse_events(rest_b) is None {
                assert(spec_parse_events(bi) is None);
            }
        }
        i = i + 2 + l;
    }
    proof {
        assert(b@.skip(i as int) =~= Seq::<u8>::empty());
        assert(out.deep_view() + Seq::<EventView>::empty() =~= out.deep_view());
    }
    Ok(out)
}

// --- commands ---

/// One command of a command payload: a proprietary type and value.
/// Before transport the whole list is encrypted into a single opaque
/// blob.
#[derive(Debug, Clone, PartialEq, Eq)]
pub enum Command {
    Proprietary(u8, Vec<u8>),
    Encrypted(Vec<u8>),
}

/// The mathematical value of a command.
pub enum CommandView {
    Proprietary(u8, Seq<u8>),
    Encrypted(Seq<u8>),
}

impl View for Command {
    type V = CommandView;

    open spec fn view(&self) -> CommandView {
        match self {
            Command::Proprietary(t, v) => CommandView::Proprietary(*t, v@),
            Command::Encrypted(b) => CommandView::Encrypted(b@),
        }
    }
}

impl DeepView for Command {
    type V = CommandView;

    open spec fn deep_view(&self) -> CommandView {
        self.view()
    }
}

impl CommandView {
    /// A plaintext command the TLV form can carry: a value that fits a
    /// one-byte length.  An encrypted blob is not plaintext.
    pub open spec fn wf(&self) -> bool {
        match self {
            CommandView::Proprietary(_, v) => v.len() <= 255,
            CommandView::Encrypted(_) => false,
        }
    }

    /// The wire bytes of one command: type, length, value; an encrypted
    /// blob stands as it is.
    pub open spec fn spec_bytes(&self) -> Seq<u8> {
        match self {
            CommandView::Proprietary(t, v) => seq![*t, v.len() as u8] + *v,
            CommandView::Encrypted(b) => *b,
        }
    }
}

/// The wire bytes of a command list: each command's bytes, in order.
pub open spec fn spec_commands_bytes(cs: Seq<CommandView>) -> Seq<u8>
    decreases cs.len(),
{
    if cs.len() == 0 {
        Seq::empty()
    } else {
        cs[0].spec_bytes() + spec_commands_bytes(cs.drop_first())
    }
}

/// The command list parsed from a decrypted blob: a sequence of TLV
/// entries, every one proprietary.
pub open spec fn spec_parse_commands(b: Seq<u8>) -> Option<Seq<CommandView>>
    decreases b.len(),
{
    if b.len() == 0 {
        Some(Seq::empty())
    } else if b.len() < 2 {
        None
    } else {
        let t = b[0];
        let l = b[1] as int;
        if b.len() < 2 + l {
            None
        } else {
            match spec_parse_commands(b.skip(2 + l)) {
                None => None,
                Some(rest) => Some(seq![CommandView::Proprietary(t, b.subrange(2, 2 + l))] + rest),
            }
        }
    }
}

impl Command {
    /// Encodes one command as a TLV entry; a value too long for the
    /// one-byte length is refused.  An encrypted blob encodes as its raw
    /// bytes.
    pub fn to_vec(&self) -> (r: Result<Vec<u8>, Error>)
        ensures
            self@.wf() ==> r is Ok,
            self matches Command::Encrypted(_) ==> r is Ok,
            r matches Ok(v) ==> v@ == self@.spec_bytes(),
    {
        match self {
            Command::Proprietary(t, val) => {
                if val.len() > 255 {
                    return Err(Error::ValueTooLong);
                }
                let mut b: Vec<u8> = Vec::new();
                b.push(*t);
                b.push(val.len() as u8);
                push_bytes(&mut b, val.as_slice());
                proof {
                    assert(b@ =~= self@.spec_bytes());
                }
                Ok(b)
            },
            Command::Encrypted(raw) => {
                let mut b: Vec<u8> = Vec::new();
                push_bytes(&mut b, raw.as_slice());
                proof {
                    assert(b@ =~= raw@);
                }
                Ok(b)
            },
        }
    }
}

/// A command that `to_vec` accepts: well-formed plaintext or an
/// encrypted blob.
pub open spec fn command_encodable(c: CommandView) -> bool {
    c.wf() || c matches CommandView::Encrypted(_)
}

/// Serializes a list of plaintext commands into TLV bytes.
fn commands_to_bytes(commands: &Vec<Command>) -> (r: Result<Vec<u8>, Error>)
    ensures
        r matches Ok(v) ==> v@ == spec_commands_bytes(commands.deep_view()),
        (forall|j: int|
            0 <= j < commands.deep_view().len() ==> command_encodable(
                #[trigger] commands.deep_view()[j],
            )) ==> r is Ok,
{
    let ghost cvs = commands.deep_view();
    let mut b: Vec<u8> = Vec::new();
    let mut i: usize = 0;
    while i < commands.len()
        invariant
            i <= commands@.len(),
            cvs == commands.deep_view(),
            cvs.len() == commands@.len(),
            forall|j: int| 0 <= j < cvs.len() ==> cvs[j] == commands@[j]@,
            b@ == spec_commands_bytes(cvs.take(i as int)),
        decreases commands@.len() - i,
    {
        let cb = match commands[i].to_vec() {
            Ok(v) => v,
            Err(e) => {
                proof {
                    assert(!command_encodable(cvs[i as int]));
                }
                return Err(e);
            },
        };
        push_bytes(&mut b, cb.as_slice());
        proof {
            lemma_commands_bytes_snoc(cvs.take(i as int), cvs[i as int]);
            assert(cvs.take(i as int).push(cvs[i as int]) =~= cvs.take(i as int + 1));
        }
        i = i + 1;
    }
    proof {
        assert(cvs.take(i as int) =~= cvs);
    }
    Ok(b)
}

/// Appending one command appends its bytes.
pub proof fn lemma_commands_bytes_snoc(cs: Seq<CommandView>, c: CommandView)
    ensures
        spec_commands_bytes(cs.push(c)) == spec_commands_bytes(cs) + c.spec_bytes(),
    decreases cs.len(),
{
    if cs.len() == 0 {
        assert(cs.push(c).drop_first() =~= Seq::<CommandView>::empty());
        assert(cs.push(c)[0] == c);
        assert(spec_commands_bytes(Seq::<CommandView>::empty()) =~= Seq::<u8>::empty());
        assert(spec_commands_bytes(cs.push(c)) =~= spec_commands_bytes(cs) + c.spec_bytes());
    } else {
        assert(cs.push(c).drop_first() =~= cs.drop_first().push(c));
        assert(cs.push(c)[0] == cs[0]);
        lemma_commands_bytes_snoc(cs.drop_first(), c);
        assert(spec_commands_bytes(cs.push(c)) =~= spec_commands_bytes(cs) + c.spec_bytes());
    }
}

/// Parsing the encoded bytes of a list of well-formed plaintext commands
/// gives the list back.
#[verifier::rlimit(50)]
pub proof fn lemma_commands_round_trip(cs: Seq<CommandView>)
    requires
        forall|i: int| 0 <= i < cs.len() ==> cs[i].wf(),
    ensures
        spec_parse_commands(spec_commands_bytes(cs)) == Some(cs),
    decreases cs.len(),
{
    if cs.len() == 0 {
    } else {
        let rest = spec_commands_bytes(cs.drop_first());
        let b = spec_commands_bytes(cs);
        lemma_commands_round_trip(cs.drop_first());
        match cs[0] {
            CommandView::Proprietary(t, v) => {
                assert(b[0] == t && b[1] == v.len() as u8);
                assert(b.len() == 2 + v.len() + rest.len());
                assert(b.subrange(2, 2 + v.len() as int) =~= v);
                assert(b.skip(2 + v.len() as int) =~= rest);
                assert(seq![CommandView::Proprietary(t, v)] + cs.drop_first() =~= cs);
            },
            CommandView::Encrypted(_) => {
                assert(false);
            },
        }
    }
}

/// Parses a decrypted blob into its command list.
fn parse_commands(b: &[u8]) -> (r: Result<Vec<Command>, Error>)
    ensures
        r matches Ok(v) ==> spec_parse_commands(b@) == Some(v.deep_view()),
        r is Err ==> spec_parse_commands(b@) is None,
{
    let n: usize = b.len();
    let mut out: Vec<Command> = Vec::new();
    let mut i: usize = 0;
    proof {
        assert(b@.skip(0) =~= b@);
    }
    while i < b.len()
        invariant
            b@.len() == n,
            i <= b@.len(),
            out.deep_view().len() == out@.len(),
            forall|j: int| 0 <= j < out@.len() ==> out.deep_view()[j] == out@[j]@,
            forall|rest: Seq<CommandView>|
                spec_parse_commands(b@.skip(i as int)) == Some(rest) ==> spec_parse_commands(b@)
                    == Some(out.deep_view() + rest),
            spec_parse_commands(b@.skip(i as int)) is None ==> spec_parse_commands(b@) is None,
        decreases b@.len() - i,
    {
        if b.len() - i < 2 {
            return Err(Error::TruncatedTlv);
        }
        let t = b[i];
        let l = b[i + 1] as usize;
        if b.len() - i - 2 < l {
            return Err(Error::TruncatedTlv);
        }
        let mut value: Vec<u8> = Vec::new();
        let mut k: usize = 0;
        while k < l
            invariant
                k <= l,
                b@.len() == n,
                i + 2 + l <= b@.len(),
                value@ =~= b@.subrange(i + 2, i + 2 + k as int),
            decreases l - k,
        {
            value.push(b[i + 2 + k]);
            k = k + 1;
        }
        let ghost prev = i as int;
        let ghost bi = b@.skip(prev);
        proof {
            assert(bi.len() >= 2 && bi[0] == t && bi[1] == l as u8);
            assert(bi.subrange(2, 2 + l as int) =~= value@);
            assert(bi.skip(2 + l as int) =~= b@.skip(prev + 2 + l as int));
        }
        let c = Command::Proprietary(t, value);
        let ghost old_out = out.deep_view();
        out.push(c);
        proof {
            assert(out.deep_view() =~= old_out.push(c@));
            let rest_b = b@.skip(prev + 2 + l as int);
            assert forall|rest: Seq<CommandView>|
                spec_parse_commands(rest_b) == Some(rest) implies spec_parse_commands(b@) == Some(
                out.deep_view() + rest,
            ) by {
                assert(spec_parse_commands(bi) == Some(seq![c@] + rest));
                assert(spec_parse_commands(b@) == Some(old_out + (seq![c@] + rest)));
                assert(out.deep_view() + rest =~= old_out + (seq![c@] + rest));
            }
            if spec_parse_commands(rest_b) is None {
                assert(spec_parse_commands(bi) is None);
            }
        }
        i = i + 2 + l;
    }
    proof {
        assert(b@.skip(i as int) =~= Seq::<u8>::empty());
        assert(out.deep_view() + Seq::<CommandView>::empty() =~= out.deep_view());
    }
    Ok(out)
}

// --- event payload ---

/// An event payload: the seconds since the epoch, the reporting relay's
/// id and the event list.
#[derive(Debug, Clone, PartialEq, Eq)]
pub struct EventPayload {
    pub timestamp: u32,
    pub relay_id: [u8; 4],
    pub events: Vec<Event>,
}

/// The mathematical value of an event payload.
pub struct EventPayloadView {
    pub timestamp: u32,
    pub relay_id: Seq<u8>,
    pub events: Seq<EventView>,
}

impl View for EventPayload {
    type V = EventPayloadView;

    open spec fn view(&self) -> EventPayloadView {
        EventPayloadView {
            timestamp: self.timestamp,
            relay_id: self.relay_id@,
            events: self.events.deep_view(),
        }
    }
}

impl EventPayloadView {
    /// A payload whose event list is in transport form: encrypted into a
    /// single non-empty blob, or empty.
    pub open spec fn transport_form(&self) -> bool {
        self.events.len() == 0 || (self.events.len() == 1 && (self.events[0] matches
        EventView::Encrypted(b) && b.len() > 0))
    }

    /// A payload whose event list is plaintext: every event well-formed.
    pub open spec fn plaintext_form(&self) -> bool {
        forall|i: int| 0 <= i < self.events.len() ==> self.events[i].wf()
    }

    /// The wire bytes: four timestamp bytes, four relay-id bytes, then
    /// the event list.
    pub open spec fn spec_bytes(&self) -> Seq<u8> {
        spec_u32_be_bytes(self.timestamp) + self.relay_id + spec_events_bytes(self.events)
    }

    /// The payload parsed from wire bytes: at least eight bytes, and any
    /// trailing bytes stashed as one encrypted blob.
    pub open spec fn spec_parse(b: Seq<u8>) -> Option<EventPayloadView> {
        if b.len() < 8 {
            None
        } else {
            Some(
                EventPayloadView {
                    timestamp: spec_u32_of_be(b[0], b[1], b[2], b[3]),
                    relay_id: b.subrange(4, 8),
                    events: if b.len() > 8 {
                        seq![EventView::Encrypted(b.skip(8))]
                    } else {
                        Seq::empty()
                    },
                },
            )
        }
    }
}

impl EventPayload {
    /// Decodes an event payload; fewer than eight bytes are refused.
    pub fn from_slice(b: &[u8]) -> (r: Result<EventPayload, Error>)
        ensures
            r matches Ok(p) ==> EventPayloadView::spec_parse(b@) == Some(p@) && p@.transport_form(),
            r is Err ==> EventPayloadView::spec_parse(b@) is None && r == Err::<Self, Error>(
                Error::EventPayloadTooShort,
            ),
    {
        if b.len() < 8 {
            return Err(Error::EventPayloadTooShort);
        }
        let timestamp = u32_from_be(b[0], b[1], b[2], b[3]);
        let relay_id: [u8; 4] = [b[4], b[5], b[6], b[7]];
        let mut events: Vec<Event> = Vec::new();
        if b.len() > 8 {
            let mut blob: Vec<u8> = Vec::new();
            let mut i: usize = 8;
            while i < b.len()
                invariant
                    8 <= i <= b@.len(),
                    blob@ =~= b@.subrange(8, i as int),
                decreases b@.len() - i,
            {
                blob.push(b[i]);
                i = i + 1;
            }
            proof {
                assert(blob@ =~= b@.skip(8));
            }
            events.push(Event::Encrypted(blob));
        }
        let p = EventPayload { timestamp, relay_id, events };
        proof {
            assert(p@.relay_id =~= b@.subrange(4, 8));
            if b@.len() > 8 {
                assert(p@.events =~= seq![EventView::Encrypted(b@.skip(8))]);
            } else {
                assert(p@.events =~= Seq::<EventView>::empty());
            }
        }
        Ok(p)
    }

    /// Encodes an event payload; an event that does not fit the TLV form
    /// is refused.
    pub fn to_vec(&self) -> (r: Result<Vec<u8>, Error>)
        ensures
            r matches Ok(v) ==> v@ == self@.spec_bytes(),
            self@.plaintext_form() || self@.transport_form() ==> r is Ok,
    {
        let eb = match events_to_bytes(&self.events) {
            Ok(v) => v,
            Err(e) => {
                proof {
                    assert(!(forall|j: int|
                        0 <= j < self.events.deep_view().len() ==> event_encodable(
                            #[trigger] self.events.deep_view()[j],
                        )));
                    lemma_not_all_events_encodable(self.events.deep_view());
                    assert(self@.events == self.events.deep_view());
                    assert(!self@.plaintext_form());
                    assert(!self@.transport_form());
                }
                return Err(e);
            },
        };
        let ts = u32_to_be(self.timestamp);
        let mut b: Vec<u8> = Vec::new();
        push_bytes(&mut b, ts.as_slice());
        push_bytes(&mut b, self.relay_id.as_slice());
        push_bytes(&mut b, eb.as_slice());
        proof {
            assert(b@ =~= self@.spec_bytes());
        }
        Ok(b)
    }

    /// Encrypts the event list in place into a single opaque blob, under
    /// the pre-counter block of an event payload.
    pub fn encrypt(&mut self, key: &Aes128Key) -> (r: Result<(), Error>)
        ensures
            final(self).timestamp == old(self).timestamp,
            final(self).relay_id == old(self).relay_id,
            r is Ok ==> final(self)@.events == seq![
                EventView::Encrypted(
                    spec_crypt(
                        key@,
                        false,
                        old(self)@.relay_id,
                        old(self)@.timestamp,
                        spec_events_bytes(old(self)@.events),
                    ),
                ),
            ],
            old(self)@.plaintext_form() ==> r is Ok,
            r is Err ==> *final(self) == *old(self),
    {
        let blob = match events_to_bytes(&self.events) {
            Ok(v) => v,
            Err(e) => {
                proof {
                    assert(!(forall|j: int|
                        0 <= j < self.events.deep_view().len() ==> event_encodable(
                            #[trigger] self.events.deep_view()[j],
                        )));
                    lemma_not_all_events_encodable(self.events.deep_view());
                    assert(old(self)@.events == self.events.deep_view());
                    assert(!old(self)@.plaintext_form());
                }
                return Err(e);
            },
        };
        let enc = crypt_bytes(key, false, &self.relay_id, self.timestamp, blob.as_slice());
        let mut events: Vec<Event> = Vec::new();
        events.push(Event::Encrypted(enc));
        self.events = events;
        proof {
            assert(self@.events =~= seq![
                EventView::Encrypted(
                    spec_crypt(
                        key@,
                        false,
                        old(self)@.relay_id,
                        old(self)@.timestamp,
                        spec_events_bytes(old(self)@.events),
                    ),
                ),
            ]);
        }
        Ok(())
    }

    /// Decrypts a single opaque blob back into the event list; a list
    /// that holds no single encrypted blob is left unchanged.
    pub fn decrypt(&mut self, key: &Aes128Key) -> (r: Result<(), Error>)
        ensures
            final(self).timestamp == old(self).timestamp,
            final(self).relay_id == old(self).relay_id,
            ({
                let evs = old(self)@.events;
                if evs.len() == 1 && (evs[0] matches EventView::Encrypted(eb)) {
                    let plain = spec_crypt(
                        key@,
                        false,
                        old(self)@.relay_id,
                        old(self)@.timestamp,
                        evs[0]->Encrypted_0,
                    );
                    match spec_parse_events(plain) {
                        Some(es) => r is Ok && final(self)@.events == es,
                        None => r is Err && *final(self) == *old(self),
                    }
                } else {
                    r is Ok && *final(self) == *old(self)
                }
            }),
    {
        if self.events.len() != 1 {
            return Ok(());
        }
        let is_encrypted = match &self.events[0] {
            Event::Encrypted(_) => true,
            _ => false,
        };
        if !is_encrypted {
            return Ok(());
        }
        let blob = match &self.events[0] {
            Event::Encrypted(b) => b,
            _ => {
                return Ok(());
            },
        };
        let plain = crypt_bytes(key, false, &self.relay_id, self.timestamp, blob.as_slice());
        let events = match parse_events(plain.as_slice()) {
            Ok(v) => v,
            Err(e) => {
                return Err(e);
            },
        };
        self.events = events;
        Ok(())
    }
}

// --- command payload ---

/// A command payload: the seconds since the epoch, the target relay's id
/// and the command list.
#[derive(Debug, Clone, PartialEq, Eq)]
pub struct CommandPayload {
    pub timestamp: u32,
    pub relay_id: [u8; 4],
    pub commands: Vec<Command>,
}

/// The mathematical value of a command payload.
pub struct CommandPayloadView {
    pub timestamp: u32,
    pub relay_id: Seq<u8>,
    pub commands: Seq<CommandView>,
}

impl View for CommandPayload {
    type V = CommandPayloadView;

    open spec fn view(&self) -> CommandPayloadView {
        CommandPayloadView {
            timestamp: self.timestamp,
            relay_id: self.relay_id@,
            commands: self.commands.deep_view(),
        }
    }
}

impl CommandPayloadView {
    /// A payload whose command list is in transport form: encrypted into
    /// a single non-empty blob, or empty.
    pub open spec fn transport_form(&self) -> bool {
        self.commands.len() == 0 || (self.commands.len() == 1 && (self.commands[0] matches
        CommandView::Encrypted(b) && b.len() > 0))
    }

    /// A payload whose command list is plaintext: every command
    /// well-formed.
    pub open spec fn plaintext_form(&self) -> bool {
        forall|i: int| 0 <= i < self.commands.len() ==> self.commands[i].wf()
    }

    /// The wire bytes: four timestamp bytes, four relay-id bytes, then
    /// the command list.
    pub open spec fn spec_bytes(&self) -> Seq<u8> {
        spec_u32_be_bytes(self.timestamp) + self.relay_id + spec_commands_bytes(self.commands)
    }

    /// The payload parsed from wire bytes: at least eight bytes, and any
    /// trailing bytes stashed as one encrypted blob.
    pub open spec fn spec_parse(b: Seq<u8>) -> Option<CommandPayloadView> {
        if b.len() < 8 {
            None
        } else {
            Some(
                CommandPayloadView {
                    timestamp: spec_u32_of_be(b[0], b[1], b[2], b[3]),
                    relay_id: b.subrange(4, 8),
                    commands: if b.len() > 8 {
                        seq![CommandView::Encrypted(b.skip(8))]
                    } else {
                        Seq::empty()
                    },
                },
            )
        }
    }
}

impl CommandPayload {
    /// Decodes a command payload; fewer than eight bytes are refused.
    pub fn from_slice(b: &[u8]) -> (r: Result<CommandPayload, Error>)
        ensures
            r matches Ok(p) ==> CommandPayloadView::spec_parse(b@) == Some(p@)
                && p@.transport_form(),
            r is Err ==> CommandPayloadView::spec_parse(b@) is None && r == Err::<Self, Error>(
                Error::EventPayloadTooShort,
            ),
    {
        if b.len() < 8 {
            return Err(Error::EventPayloadTooShort);
        }
        let timestamp = u32_from_be(b[0], b[1], b[2], b[3]);
        let relay_id: [u8; 4] = [b[4], b[5], b[6], b[7]];
        let mut commands: Vec<Command> = Vec::new();
        if b.len() > 8 {
            let mut blob: Vec<u8> = Vec::new();
            let mut i: usize = 8;
            while i < b.len()
                invariant
                    8 <= i <= b@.len(),
                    blob@ =~= b@.subrange(8, i as int),
                decreases b@.len() - i,
            {
                blob.push(b[i]);
                i = i + 1;
            }
            proof {
                assert(blob@ =~= b@.skip(8));
            }
            commands.push(Command::Encrypted(blob));
        }
        let p = CommandPayload { timestamp, relay_id, commands };
        proof {
            assert(p@.relay_id =~= b@.subrange(4, 8));
            if b@.len() > 8 {
                assert(p@.commands =~= seq![CommandView::Encrypted(b@.skip(8))]);
            } else {
                assert(p@.commands =~= Seq::<CommandView>::empty());
            }
        }
        Ok(p)
    }

    /// Encodes a command payload; a command that does not fit the TLV
    /// form is refused.
    pub fn to_vec(&self) -> (r: Result<Vec<u8>, Error>)
        ensures
            r matches Ok(v) ==> v@ == self@.spec_bytes(),
            self@.plaintext_form() || self@.transport_form() ==> r is Ok,
    {
        let cb = match commands_to_bytes(&self.commands) {
            Ok(v) => v,
            Err(e) => {
                proof {
                    assert(!(forall|j: int|
                        0 <= j < self.commands.deep_view().len() ==> command_encodable(
                            #[trigger] self.commands.deep_view()[j],
                        )));
                    lemma_not_all_commands_encodable(self.commands.deep_view());
                    assert(self@.commands == self.commands.deep_view());
                    assert(!self@.plaintext_form());
                    assert(!self@.transport_form());
                }
                return Err(e);
            },
        };
        let ts = u32_to_be(self.timestamp);
        let mut b: Vec<u8> = Vec::new();
        push_bytes(&mut b, ts.as_slice());
        push_bytes(&mut b, self.relay_id.as_slice());
        push_bytes(&mut b, cb.as_slice());
        proof {
            assert(b@ =~= self@.spec_bytes());
        }
        Ok(b)
    }

    /// Encrypts the command list in place into a single opaque blob,
    /// under the pre-counter block of a command payload.
    pub fn encrypt(&mut self, key: &Aes128Key) -> (r: Result<(), Error>)
        ensures
            final(self).timestamp == old(self).timestamp,
            final(self).relay_id == old(self).relay_id,
            r is Ok ==> final(self)@.commands == seq![
                CommandView::Encrypted(
                    spec_crypt(
                        key@,
                        true,
                        old(self)@.relay_id,
                        old(self)@.timestamp,
                        spec_commands_bytes(old(self)@.commands),
                    ),
                ),
            ],
            old(self)@.plaintext_form() ==> r is Ok,
            r is Err ==> *final(self) == *old(self),
    {
        let blob = match commands_to_bytes(&self.commands) {
            Ok(v) => v,
            Err(e) => {
                proof {
                    assert(!(forall|j: int|
                        0 <= j < self.commands.deep_view().len() ==> command_encodable(
                            #[trigger] self.commands.deep_view()[j],
                        )));
                    lemma_not_all_commands_encodable(self.commands.deep_view());
                    assert(old(self)@.commands == self.commands.deep_view());
                    assert(!old(self)@.plaintext_form());
                }
                return Err(e);
            },
        };
        let enc = crypt_bytes(key, true, &self.relay_id, self.timestamp, blob.as_slice());
        let mut commands: Vec<Command> = Vec::new();
        commands.push(Command::Encrypted(enc));
        self.commands = commands;
        proof {
            assert(self@.commands =~= seq![
                CommandView::Encrypted(
                    spec_crypt(
                        key@,
                        true,
                        old(self)@.relay_id,
                        old(self)@.timestamp,
                        spec_commands_bytes(old(self)@.commands),
                    ),
                ),
            ]);
        }
        Ok(())
    }

    /// Decrypts a single opaque blob back into the command list; a list
    /// that holds no single encrypted blob is left unchanged.
    pub fn decrypt(&mut self, key: &Aes128Key) -> (r: Result<(), Error>)
        ensures
            final(self).timestamp == old(self).timestamp,
            final(self).relay_id == old(self).relay_id,
            ({
                let cvs = old(self)@.commands;
                if cvs.len() == 1 && (cvs[0] matches CommandView::Encrypted(eb)) {
                    let plain = spec_crypt(
                        key@,
                        true,
                        old(self)@.relay_id,
                        old(self)@.timestamp,
                        cvs[0]->Encrypted_0,
                    );
                    match spec_parse_commands(plain) {
                        Some(es) => r is Ok && final(self)@.commands == es,
                        None => r is Err && *final(self) == *old(self),
                    }
                } else {
                    r is Ok && *final(self) == *old(self)
                }
            }),
    {
        if self.commands.len() != 1 {
            return Ok(());
        }
        let is_encrypted = match &self.commands[0] {
            Command::Encrypted(_) => true,
            _ => false,
        };
        if !is_encrypted {
            return Ok(());
        }
        let blob = match &self.commands[0] {
            Command::Encrypted(b) => b,
            _ => {
                return Ok(());
            },
        };
        let plain = crypt_bytes(key, true, &self.relay_id, self.timestamp, blob.as_slice());
        let commands = match parse_commands(plain.as_slice()) {
            Ok(v) => v,
            Err(e) => {
                return Err(e);
            },
        };
        self.commands = commands;
        Ok(())
    }
}

// --- the mesh packet ---

/// The payload of a mesh packet.
#[derive(Debug, Clone, PartialEq, Eq)]
pub enum Payload {
    Uplink(UplinkPayload),
    Downlink(DownlinkPayload),
    Event(EventPayload),
    Command(CommandPayload),
}

/// The mathematical value of a payload.
pub enum PayloadView {
    Uplink(UplinkPayloadView),
    Downlink(DownlinkPayloadView),
    Event(EventPayloadView),
    Command(CommandPayloadView),
}

impl View for Payload {
    type V = PayloadView;

    open spec fn view(&self) -> PayloadView {
        match self {
            Payload::Uplink(p) => PayloadView::Uplink(p@),
            Payload::Downlink(p) => PayloadView::Downlink(p@),
            Payload::Event(p) => PayloadView::Event(p@),
            Payload::Command(p) => PayloadView::Command(p@),
        }
    }
}

impl PayloadView {
    /// The wire bytes of the payload.
    pub open spec fn spec_bytes(&self) -> Seq<u8> {
        match self {
            PayloadView::Uplink(p) => p.spec_bytes(),
            PayloadView::Downlink(p) => p.spec_bytes(),
            PayloadView::Event(p) => p.spec_bytes(),
            PayloadView::Command(p) => p.spec_bytes(),
        }
    }

    /// Whether the payload variant agrees with a payload type.
    pub open spec fn matches_type(&self, t: PayloadType) -> bool {
        match self {
            PayloadView::Uplink(_) => t == PayloadType::Uplink,
            PayloadView::Downlink(_) => t == PayloadType::Downlink,
            PayloadView::Event(_) => t == PayloadType::Event,
            PayloadView::Command(_) => t == PayloadType::Command,
        }
    }
}

/// A mesh packet: header, payload and the four-byte MIC.
#[derive(Debug, Clone, PartialEq, Eq)]
pub struct MeshPacket {
    pub mhdr: MHDR,
    pub payload: Payload,
    pub mic: Option<[u8; 4]>,
}

/// The mathematical value of a mesh packet.
pub struct MeshPacketView {
    pub mhdr: MHDR,
    pub payload: PayloadView,
    pub mic: Option<Seq<u8>>,
}

impl View for MeshPacket {
    type V = MeshPacketView;

    open spec fn view(&self) -> MeshPacketView {
        MeshPacketView {
            mhdr: self.mhdr,
            payload: self.payload@,
            mic: match self.mic {
                Some(m) => Some(m@),
                None => None,
            },
        }
    }
}

impl MeshPacketView {
    /// A packet the wire format can carry and decode back: a well-formed
    /// header, a payload that agrees with the header's payload type, a
    /// well-formed payload body, and an event or command list in
    /// transport form.
    pub open spec fn wf(&self) -> bool {
        &&& self.mhdr.wf()
        &&& self.payload.matches_type(self.mhdr.payload_type)
        &&& match self.payload {
            PayloadView::Uplink(p) => p.wf(),
            PayloadView::Downlink(p) => p.wf(),
            PayloadView::Event(p) => p.relay_id.len() == 4 && p.transport_form(),
            PayloadView::Command(p) => p.relay_id.len() == 4 && p.transport_form(),
        }
    }

    /// The bytes the MIC is computed over: the header byte and the
    /// payload bytes, without the MIC trailer.
    pub open spec fn spec_mic_bytes(&self) -> Seq<u8> {
        seq![spec_mhdr_byte(self.mhdr)] + self.payload.spec_bytes()
    }

    /// The full wire bytes: header byte, payload bytes and the MIC
    /// trailer.
    pub open spec fn spec_bytes(&self) -> Seq<u8> {
        self.spec_mic_bytes() + self.mic->Some_0
    }

    /// The packet parsed from wire bytes: at least five bytes, a header
    /// byte with the proprietary marker, the last four bytes the MIC and
    /// the middle the payload of the header's type.
    pub open spec fn spec_parse(b: Seq<u8>) -> Option<MeshPacketView> {
        if b.len() < 5 {
            None
        } else {
            match spec_decode_mhdr(b[0]) {
                None => None,
                Some(mhdr) => {
                    let body = b.subrange(1, b.len() - 4);
                    let mic = b.subrange(b.len() - 4, b.len() as int);
                    match mhdr.payload_type {
                        PayloadType::Uplink => match UplinkPayloadView::spec_parse(body) {
                            None => None,
                            Some(p) => Some(
                                MeshPacketView {
                                    mhdr,
                                    payload: PayloadView::Uplink(p),
                                    mic: Some(mic),
                                },
                            ),
                        },
                        PayloadType::Downlink => match DownlinkPayloadView::spec_parse(body) {
                            None => None,
                            Some(p) => Some(
                                MeshPacketView {
                                    mhdr,
                                    payload: PayloadView::Downlink(p),
                                    mic: Some(mic),
                                },
                            ),
                        },
                        PayloadType::Event => match EventPayloadView::spec_parse(body) {
                            None => None,
                            Some(p) => Some(
                                MeshPacketView {
                                    mhdr,
                                    payload: PayloadView::Event(p),
                                    mic: Some(mic),
                                },
                            ),
                        },
                        PayloadType::Command => match CommandPayloadView::spec_parse(body) {
                            None => None,
                            Some(p) => Some(
                                MeshPacketView {
                                    mhdr,
                                    payload: PayloadView::Command(p),
                                    mic: Some(mic),
                                },
                            ),
                        },
                    }
                },
            }
        }
    }
}

/// What CMAC-AES-128 returns for a key and a message: a 16-byte tag.
pub uninterp spec fn aes128_cmac(key: Seq<u8>, data: Seq<u8>) -> Seq<u8>;

/// Relies on the cmac crate (`Cmac::<Aes128>`, `update`, `finalize`):
/// CMAC-AES-128, a function of the key and the message alone.  The
/// `new_from_slice` call cannot fail, as the key always holds the sixteen
/// bytes AES-128 takes.
#[verifier::external_body]
fn cmac_tag(key: &Aes128Key, data: &[u8]) -> (r: [u8; 16])
    ensures
        r@ == aes128_cmac(key@, data@),
{
    let mut mac = <cmac::Cmac<aes::Aes128> as cmac::Mac>::new_from_slice(
        &key.to_bytes(),
    ).unwrap();
    cmac::Mac::update(&mut mac, data);
    cmac::Mac::finalize(mac).into_bytes().into()
}

/// The MIC of a packet under a signing key: the first four bytes of the
/// CMAC over the header and payload bytes.
pub open spec fn spec_packet_mic(key: Seq<u8>, p: MeshPacketView) -> Seq<u8> {
    Seq::new(4, |i: int| aes128_cmac(key, p.spec_mic_bytes())[i])
}

/// Whether two four-byte strings hold the same bytes.
fn bytes4_equal(a: &[u8; 4], b: &[u8; 4]) -> (r: bool)
    ensures
        r == (a@ == b@),
{
    relay_ids_equal(a, b)
}

impl MeshPacket {
    /// Which error encoding reports: the header's error first, then the
    /// payload's, then a missing MIC.
    pub open spec fn spec_to_vec_err(&self) -> Option<Error> {
        if !self.mhdr.wf() {
            if self.mhdr.hop_count == 0 {
                Some(Error::MinHopCount)
            } else {
                Some(Error::MaxHopCount)
            }
        } else {
            match self@.payload {
                PayloadView::Uplink(p) => if !p.metadata.wf() {
                    Some(p.metadata.spec_to_bytes_err())
                } else if self.mic is None {
                    Some(Error::MicNone)
                } else {
                    None
                },
                PayloadView::Downlink(p) => if !p.metadata.wf() {
                    Some(p.metadata.spec_to_bytes_err())
                } else if self.mic is None {
                    Some(Error::MicNone)
                } else {
                    None
                },
                PayloadView::Event(p) => if !(p.plaintext_form() || p.transport_form()) {
                    None  // some entry is refused; which error depends on the entry
                } else if self.mic is None {
                    Some(Error::MicNone)
                } else {
                    None
                },
                PayloadView::Command(p) => if !(p.plaintext_form() || p.transport_form()) {
                    None
                } else if self.mic is None {
                    Some(Error::MicNone)
                } else {
                    None
                },
            }
        }
    }

    /// Serializes the header and payload, the bytes the MIC signs.
    fn mic_bytes(&self) -> (r: Result<Vec<u8>, Error>)
        ensures
            r matches Ok(v) ==> v@ == self@.spec_mic_bytes() && self.mhdr.wf() && (
            match self@.payload {
                PayloadView::Uplink(p) => p.metadata.wf(),
                PayloadView::Downlink(p) => p.metadata.wf(),
                PayloadView::Event(_) => true,
                PayloadView::Command(_) => true,
            }),
            self.mhdr.wf() && (match self@.payload {
                PayloadView::Uplink(p) => p.metadata.wf(),
                PayloadView::Downlink(p) => p.metadata.wf(),
                PayloadView::Event(p) => p.plaintext_form() || p.transport_form(),
                PayloadView::Command(p) => p.plaintext_form() || p.transport_form(),
            }) ==> r is Ok,
            r matches Err(e) ==> ({
                if !self.mhdr.wf() {
                    e == (if self.mhdr.hop_count == 0 {
                        Error::MinHopCount
                    } else {
                        Error::MaxHopCount
                    })
                } else {
                    match self@.payload {
                        PayloadView::Uplink(p) => !p.metadata.wf() && e
                            == p.metadata.spec_to_bytes_err(),
                        PayloadView::Downlink(p) => !p.metadata.wf() && e
                            == p.metadata.spec_to_bytes_err(),
                        PayloadView::Event(p) => !(p.plaintext_form() || p.transport_form()),
                        PayloadView::Command(p) => !(p.plaintext_form() || p.transport_form()),
                    }
                }
            }),
    {
        let hdr = match self.mhdr.to_byte() {
            Ok(v) => v,
            Err(e) => {
                return Err(e);
            },
        };
        let body = match &self.payload {
            Payload::Uplink(p) => p.to_vec(),
            Payload::Downlink(p) => p.to_vec(),
            Payload::Event(p) => p.to_vec(),
            Payload::Command(p) => p.to_vec(),
        };
        let body = match body {
            Ok(v) => v,
            Err(e) => {
                return Err(e);
            },
        };
        let mut b: Vec<u8> = Vec::new();
        b.push(hdr);
        push_bytes(&mut b, body.as_slice());
        proof {
            assert(b@ =~= self@.spec_mic_bytes());
        }
        Ok(b)
    }

    /// Encodes the packet: header byte, payload bytes and the MIC
    /// trailer.  A packet without a MIC, or with fields outside the wire
    /// ranges, is refused.
    pub fn to_vec(&self) -> (r: Result<Vec<u8>, Error>)
        ensures
            r matches Ok(v) ==> v@ == self@.spec_bytes() && self.mic is Some && self.mhdr.wf(),
            self@.wf() && self.mic is Some ==> r is Ok,
            self.spec_to_vec_err() matches Some(e) ==> r == Err::<Vec<u8>, Error>(e),
    {
        let mut b = match self.mic_bytes() {
            Ok(v) => v,
            Err(e) => {
                return Err(e);
            },
        };
        let mic = match &self.mic {
            Some(m) => m,
            None => {
                return Err(Error::MicNone);
            },
        };
        push_bytes(&mut b, mic.as_slice());
        proof {
            assert(b@ =~= self@.spec_bytes());
        }
        Ok(b)
    }

    /// Decodes a packet from wire bytes.  The input must hold at least
    /// the header and the MIC, carry the proprietary marker, and its
    /// payload must decode under the header's payload type.
    pub fn from_slice(b: &[u8]) -> (r: Result<MeshPacket, Error>)
        ensures
            r matches Ok(p) ==> MeshPacketView::spec_parse(b@) == Some(p@),
            r is Err ==> MeshPacketView::spec_parse(b@) is None,
            b@.len() == 0 ==> r == Err::<MeshPacket, Error>(Error::EmptyInput),
            0 < b@.len() < 5 ==> r == Err::<MeshPacket, Error>(Error::NotEnoughBytes),
            b@.len() >= 5 && spec_decode_mhdr(b@[0]) is None ==> r == Err::<MeshPacket, Error>(
                Error::InvalidMType,
            ),
    {
        let len = b.len();
        if len == 0 {
            return Err(Error::EmptyInput);
        }
        if len < 5 {
            return Err(Error::NotEnoughBytes);
        }
        let mhdr = match MHDR::from_byte(b[0]) {
            Ok(v) => v,
            Err(e) => {
                return Err(e);
            },
        };
        let mic: [u8; 4] = [b[len - 4], b[len - 3], b[len - 2], b[len - 1]];
        let mut body: Vec<u8> = Vec::new();
        let mut i: usize = 1;
        while i < len - 4
            invariant
                1 <= i <= b@.len() - 4,
                len == b@.len(),
                b@.len() >= 5,
                body@ =~= b@.subrange(1, i as int),
            decreases b@.len() - i,
        {
            body.push(b[i]);
            i = i + 1;
        }
        proof {
            assert(body@ =~= b@.subrange(1, b@.len() - 4));
            assert(mic@ =~= b@.subrange(b@.len() - 4, b@.len() as int));
        }
        let payload = match mhdr.payload_type {
            PayloadType::Uplink => match UplinkPayload::from_slice(body.as_slice()) {
                Ok(p) => Payload::Uplink(p),
                Err(e) => {
                    return Err(e);
                },
            },
            PayloadType::Downlink => match DownlinkPayload::from_slice(body.as_slice()) {
                Ok(p) => Payload::Downlink(p),
                Err(e) => {
                    return Err(e);
                },
            },
            PayloadType::Event => match EventPayload::from_slice(body.as_slice()) {
                Ok(p) => Payload::Event(p),
                Err(e) => {
                    return Err(e);
                },
            },
            PayloadType::Command => match CommandPayload::from_slice(body.as_slice()) {
                Ok(p) => Payload::Command(p),
                Err(e) => {
                    return Err(e);
                },
            },
        };
        Ok(MeshPacket { mhdr, payload, mic: Some(mic) })
    }

    /// Computes the MIC: the first four bytes of the CMAC over the
    /// header and payload bytes under the signing key.
    fn calculate_mic(&self, key: &Aes128Key) -> (r: Result<[u8; 4], Error>)
        ensures
            r matches Ok(m) ==> m@ == spec_packet_mic(key@, self@),
            self@.wf() ==> r is Ok,
    {
        let mb = match self.mic_bytes() {
            Ok(v) => v,
            Err(e) => {
                return Err(e);
            },
        };
        let tag = cmac_tag(key, mb.as_slice());
        let mic: [u8; 4] = [tag[0], tag[1], tag[2], tag[3]];
        proof {
            assert(mic@ =~= spec_packet_mic(key@, self@));
        }
        Ok(mic)
    }

    /// Computes and stores the MIC.  The MIC is computed after any
    /// encryption and any header change, so it signs the bytes as they
    /// will be transmitted.
    pub fn set_mic(&mut self, key: Aes128Key) -> (r: Result<(), Error>)
        ensures
            r is Ok ==> final(self)@.mic == Some(spec_packet_mic(key@, old(self)@))
                && final(self).mhdr == old(self).mhdr && final(self).payload == old(self).payload,
            old(self)@.wf() ==> r is Ok,
            r is Err ==> *final(self) == *old(self),
    {
        let mic = match self.calculate_mic(&key) {
            Ok(v) => v,
            Err(e) => {
                return Err(e);
            },
        };
        self.mic = Some(mic);
        Ok(())
    }

    /// Checks the stored MIC against the one the signing key yields:
    /// true exactly when the stored MIC is the first four CMAC bytes of
    /// the header and payload.  A packet without a MIC is refused.
    pub fn validate_mic(&self, key: Aes128Key) -> (r: Result<bool, Error>)
        ensures
            self.mic is None ==> r == Err::<bool, Error>(Error::MicNone),
            r matches Ok(v) ==> self@.mic is Some && (v <==> self@.mic == Some(
                spec_packet_mic(key@, self@),
            )),
            self@.wf() && self.mic is Some ==> r is Ok,
    {
        let mic = match &self.mic {
            Some(m) => *m,
            None => {
                return Err(Error::MicNone);
            },
        };
        let calc = match self.calculate_mic(&key) {
            Ok(v) => v,
            Err(e) => {
                return Err(e);
            },
        };
        Ok(bytes4_equal(&mic, &calc))
    }

    /// Encrypts an event or command payload in place; any other payload
    /// is left unchanged.
    pub fn encrypt(&mut self, key: Aes128Key) -> (r: Result<(), Error>)
        ensures
            final(self).mhdr == old(self).mhdr,
            final(self).mic == old(self).mic,
            old(self).payload matches Payload::Uplink(_) ==> r is Ok && *final(self) == *old(self),
            old(self).payload matches Payload::Downlink(_) ==> r is Ok && *final(self) == *old(self),
            old(self)@.payload matches PayloadView::Event(p) ==> r is Ok ==> (final(self)@.payload matches PayloadView::Event(q) && q.timestamp == p.timestamp && q.relay_id
                == p.relay_id && q.events == seq![
                EventView::Encrypted(
                    spec_crypt(key@, false, p.relay_id, p.timestamp, spec_events_bytes(p.events)),
                ),
            ]),
            old(self)@.payload matches PayloadView::Command(p) ==> r is Ok ==> (final(self)@.payload matches PayloadView::Command(q) && q.timestamp == p.timestamp && q.relay_id
                == p.relay_id && q.commands == seq![
                CommandView::Encrypted(
                    spec_crypt(key@, true, p.relay_id, p.timestamp, spec_commands_bytes(p.commands)),
                ),
            ]),
            (old(self)@.payload matches PayloadView::Event(p) && p.plaintext_form()) ==> r is Ok,
            (old(self)@.payload matches PayloadView::Command(p) && p.plaintext_form()) ==> r is Ok,
    {
        match &mut self.payload {
            Payload::Event(p) => p.encrypt(&key),
            Payload::Command(p) => p.encrypt(&key),
            _ => Ok(()),
        }
    }

    /// Decrypts an event or command payload in place; any other payload
    /// is left unchanged.
    pub fn decrypt(&mut self, key: Aes128Key) -> (r: Result<(), Error>)
        ensures
            final(self).mhdr == old(self).mhdr,
            final(self).mic == old(self).mic,
            old(self).payload matches Payload::Uplink(_) ==> r is Ok && *final(self) == *old(self),
            old(self).payload matches Payload::Downlink(_) ==> r is Ok && *final(self) == *old(self),
            old(self)@.payload matches PayloadView::Event(p) ==> r is Ok ==> (final(self)@.payload matches PayloadView::Event(q) && q.timestamp == p.timestamp && q.relay_id
                == p.relay_id && (p.events.len() == 1 && p.events[0] is Encrypted
                ==> spec_parse_events(
                spec_crypt(key@, false, p.relay_id, p.timestamp, p.events[0]->Encrypted_0),
            ) == Some(q.events)) && (!(p.events.len() == 1 && p.events[0] is Encrypted)
                ==> q.events == p.events)),
            old(self)@.payload matches PayloadView::Command(p) ==> r is Ok ==> (final(self)@.payload matches PayloadView::Command(q) && q.timestamp == p.timestamp && q.relay_id
                == p.relay_id && (p.commands.len() == 1 && p.commands[0] is Encrypted
                ==> spec_parse_commands(
                spec_crypt(key@, true, p.relay_id, p.timestamp, p.commands[0]->Encrypted_0),
            ) == Some(q.commands)) && (!(p.commands.len() == 1 && p.commands[0] is Encrypted)
                ==> q.commands == p.commands)),
            r is Err ==> *final(self) == *old(self) && (match old(self)@.payload {
                PayloadView::Event(p) => p.events.len() == 1 && p.events[0] is Encrypted
                    && spec_parse_events(
                    spec_crypt(key@, false, p.relay_id, p.timestamp, p.events[0]->Encrypted_0),
                ) is None,
                PayloadView::Command(p) => p.commands.len() == 1 && p.commands[0] is Encrypted
                    && spec_parse_commands(
                    spec_crypt(key@, true, p.relay_id, p.timestamp, p.commands[0]->Encrypted_0),
                ) is None,
                _ => false,
            }),
    {
        match &mut self.payload {
            Payload::Event(p) => p.decrypt(&key),
            Payload::Command(p) => p.decrypt(&key),
            _ => Ok(()),
        }
    }
}

// --- received frames ---

/// A received frame: a mesh packet where the first byte carries the
/// proprietary marker, otherwise an opaque LoRaWAN frame.
#[derive(Debug, PartialEq, Eq)]
pub enum Packet {
    Mesh(MeshPacket),
    Lora(Vec<u8>),
}

/// The mathematical value of a received frame.
pub enum PacketView {
    Mesh(MeshPacketView),
    Lora(Seq<u8>),
}

impl View for Packet {
    type V = PacketView;

    open spec fn view(&self) -> PacketView {
        match self {
            Packet::Mesh(p) => PacketView::Mesh(p@),
            Packet::Lora(b) => PacketView::Lora(b@),
        }
    }
}

/// Whether a received byte string is a mesh frame: its first byte has
/// the top three bits set.
pub open spec fn spec_is_mesh_frame(b: Seq<u8>) -> bool {
    b.len() > 0 && b[0] & 0xe0 == 0xe0
}

impl Packet {
    /// Splits a received frame: a mesh packet when the proprietary
    /// marker is set, else the opaque frame itself.  Empty input is
    /// refused.
    pub fn from_slice(b: &[u8]) -> (r: Result<Packet, Error>)
        ensures
            b@.len() == 0 ==> r == Err::<Packet, Error>(Error::EmptyInput),
            r matches Ok(p) ==> b@.len() > 0 && match p@ {
                PacketView::Mesh(m) => spec_is_mesh_frame(b@) && MeshPacketView::spec_parse(b@)
                    == Some(m),
                PacketView::Lora(l) => !spec_is_mesh_frame(b@) && l == b@,
            },
            b@.len() > 0 && !spec_is_mesh_frame(b@) ==> r is Ok,
            spec_is_mesh_frame(b@) && MeshPacketView::spec_parse(b@) is Some ==> r is Ok,
            b@.len() > 0 && spec_is_mesh_frame(b@) && MeshPacketView::spec_parse(b@) is None
                ==> r is Err,
    {
        if b.len() == 0 {
            return Err(Error::EmptyInput);
        }
        let b0 = b[0];
        proof {
            assert(b0 & 0xe0 == 0xe0 ==> (b0 >> 5) == 0x07) by (bit_vector);
            assert((b0 >> 5) == 0x07 ==> b0 & 0xe0 == 0xe0) by (bit_vector);
        }
        if b0 & 0xe0 == 0xe0 {
            match MeshPacket::from_slice(b) {
                Ok(p) => Ok(Packet::Mesh(p)),
                Err(e) => Err(e),
            }
        } else {
            let mut v: Vec<u8> = Vec::new();
            push_bytes(&mut v, b);
            proof {
                assert(v@ =~= b@);
            }
            Ok(Packet::Lora(v))
        }
    }

    /// Encodes a received frame back to bytes.
    pub fn to_vec(&self) -> (r: Result<Vec<u8>, Error>)
        ensures
            self matches Packet::Lora(b) ==> (r matches Ok(v) && v@ == b@),
            self matches Packet::Mesh(m) ==> {
                &&& (r matches Ok(v) ==> v@ == m@.spec_bytes() && m.mic is Some)
                &&& (m@.wf() && m.mic is Some ==> r is Ok)
            },
    {
        match self {
            Packet::Mesh(p) => p.to_vec(),
            Packet::Lora(b) => {
                let mut v: Vec<u8> = Vec::new();
                push_bytes(&mut v, b.as_slice());
                proof {
                    assert(v@ =~= b@);
                }
                Ok(v)
            },
        }
    }
}

/// An event list with an entry that cannot be encoded is neither all
/// plaintext nor a single encrypted blob.
proof fn lemma_not_all_events_encodable(evs: Seq<EventView>)
    requires
        !(forall|j: int| 0 <= j < evs.len() ==> event_encodable(#[trigger] evs[j])),
    ensures
        evs.len() != 0,
        !(forall|j: int| 0 <= j < evs.len() ==> evs[j].wf()),
        !(evs.len() == 1 && (evs[0] matches EventView::Encrypted(_))),
{
    let j = choose|j: int| 0 <= j < evs.len() && !event_encodable(#[trigger] evs[j]);
    assert(!evs[j].wf());
    if evs.len() == 1 && (evs[0] matches EventView::Encrypted(_)) {
        assert(j == 0);
        assert(event_encodable(evs[0]));
    }
}

/// A command list with an entry that cannot be encoded is neither all
/// plaintext nor a single encrypted blob.
proof fn lemma_not_all_commands_encodable(cvs: Seq<CommandView>)
    requires
        !(forall|j: int| 0 <= j < cvs.len() ==> command_encodable(#[trigger] cvs[j])),
    ensures
        cvs.len() != 0,
        !(forall|j: int| 0 <= j < cvs.len() ==> cvs[j].wf()),
        !(cvs.len() == 1 && (cvs[0] matches CommandView::Encrypted(_))),
{
    let j = choose|j: int| 0 <= j < cvs.len() && !command_encodable(#[trigger] cvs[j]);
    assert(!cvs[j].wf());
    if cvs.len() == 1 && (cvs[0] matches CommandView::Encrypted(_)) {
        assert(j == 0);
        assert(command_encodable(cvs[0]));
    }
}

// --- the laws of the codec ---

/// Decoding an encoded packet gives the packet back: the wire round
/// trip.  The packet must be well-formed — its hop count between one and
/// eight, its fields inside the wire ranges, a downlink frequency on a
/// grid that decoding can tell apart, and an event or command list in
/// transport form — and must carry a MIC.
pub proof fn lemma_mesh_packet_round_trip(p: MeshPacketView)
    requires
        p.wf(),
        p.mic matches Some(m) && m.len() == 4,
        p.payload matches PayloadView::Downlink(d) ==> ((d.metadata.frequency % 100 == 0
            && d.metadata.frequency < 1200000000) || (2400000000 <= d.metadata.frequency
            < 3355443200 && d.metadata.frequency % 200 == 0)),
    ensures
        MeshPacketView::spec_parse(p.spec_bytes()) == Some(p),
{
    let b = p.spec_bytes();
    let pb = p.payload.spec_bytes();
    lemma_mhdr_round_trip(p.mhdr);
    assert(b[0] == spec_mhdr_byte(p.mhdr));
    match p.payload {
        PayloadView::Uplink(u) => {
            assert(pb.len() >= 9);
        },
        PayloadView::Downlink(d) => {
            assert(pb.len() >= 10);
        },
        PayloadView::Event(ev) => {
            if ev.events.len() == 0 {
                assert(spec_events_bytes(ev.events) =~= Seq::<u8>::empty());
            } else {
                let eb = ev.events[0]->Encrypted_0;
                assert(spec_events_bytes(ev.events.drop_first()) =~= Seq::<u8>::empty());
                assert(spec_events_bytes(ev.events) =~= eb);
            }
            assert(pb.len() >= 8);
        },
        PayloadView::Command(cv) => {
            if cv.commands.len() == 0 {
                assert(spec_commands_bytes(cv.commands) =~= Seq::<u8>::empty());
            } else {
                let eb = cv.commands[0]->Encrypted_0;
                assert(spec_commands_bytes(cv.commands.drop_first()) =~= Seq::<u8>::empty());
                assert(spec_commands_bytes(cv.commands) =~= eb);
            }
            assert(pb.len() >= 8);
        },
    }
    assert(b.len() == 1 + pb.len() + 4);
    let body = b.subrange(1, b.len() - 4);
    let mic = b.subrange(b.len() - 4, b.len() as int);
    assert(body =~= pb);
    assert(mic =~= p.mic->Some_0);
    match p.payload {
        PayloadView::Uplink(u) => {
            lemma_uplink_payload_round_trip(u);
        },
        PayloadView::Downlink(d) => {
            lemma_downlink_payload_round_trip(d);
        },
        PayloadView::Event(ev) => {
            lemma_u32_be_round_trip(ev.timestamp);
            assert(pb.subrange(4, 8) =~= ev.relay_id);
            if ev.events.len() == 0 {
                assert(EventPayloadView::spec_parse(pb)->Some_0.events =~= ev.events);
            } else {
                let eb = ev.events[0]->Encrypted_0;
                assert(pb.skip(8) =~= eb);
                assert(EventPayloadView::spec_parse(pb)->Some_0.events =~= ev.events);
            }
        },
        PayloadView::Command(cv) => {
            lemma_u32_be_round_trip(cv.timestamp);
            assert(pb.subrange(4, 8) =~= cv.relay_id);
            if cv.commands.len() == 0 {
                assert(CommandPayloadView::spec_parse(pb)->Some_0.commands =~= cv.commands);
            } else {
                let eb = cv.commands[0]->Encrypted_0;
                assert(pb.skip(8) =~= eb);
                assert(CommandPayloadView::spec_parse(pb)->Some_0.commands =~= cv.commands);
            }
        },
    }
}

/// A decoded SNR is always in the six-bit range.
pub proof fn lemma_snr_of_byte_range(b: u8)
    ensures
        -32 <= spec_snr_of_byte(b) <= 31,
{
    assert(b & 0x3f < 64) by (bit_vector);
}

/// A parsed event list holds no encrypted entries: parsing yields
/// heartbeats and proprietary events only.
pub proof fn lemma_parse_events_plaintext(b: Seq<u8>)
    ensures
        spec_parse_events(b) matches Some(es) ==> forall|i: int|
            0 <= i < es.len() ==> !(#[trigger] es[i] is Encrypted),
    decreases b.len(),
{
    if b.len() >= 2 {
        let l = b[1] as int;
        if b.len() >= 2 + l {
            lemma_parse_events_plaintext(b.skip(2 + l));
        }
    }
}

/// A packet parsed from wire bytes is well-formed: its hop count is
/// between one and eight, its payload agrees with its payload type, its
/// metadata fields are inside the wire ranges, its event or command list
/// is in transport form, and its MIC holds four bytes.  A parsed downlink
/// frequency always lies on a grid that decoding can tell apart.
pub proof fn lemma_parsed_packet_wf(b: Seq<u8>, p: MeshPacketView)
    requires
        MeshPacketView::spec_parse(b) == Some(p),
    ensures
        p.wf(),
        p.mic matches Some(m) && m.len() == 4,
        p.payload matches PayloadView::Downlink(d) ==> ((d.metadata.frequency % 100 == 0
            && d.metadata.frequency < 1200000000) || (2400000000 <= d.metadata.frequency
            < 3355443200 && d.metadata.frequency % 200 == 0)),
{
    let b0 = b[0];
    assert(((b0 >> 3) & 0x03) <= 3 && 1 <= ((b0 & 0x07) + 1) <= 8) by (bit_vector);
    let body = b.subrange(1, b.len() - 4);
    match p.payload {
        PayloadView::Uplink(u) => {
            lemma_unpack_ranges(body[0], body[1]);
            lemma_snr_of_byte_range(body[3]);
        },
        PayloadView::Downlink(d) => {
            lemma_unpack_ranges(body[0], body[1]);
            let b5 = body[5];
            assert((b5 & 0xf0) >> 4 <= 15 && 1 <= (b5 & 0x0f) + 1 <= 16) by (bit_vector);
            let f0 = body[2];
            let f1 = body[3];
            let f2 = body[4];
            let v = (((f0 as u32) << 16) | ((f1 as u32) << 8)) | (f2 as u32);
            assert((((f0 as u32) << 16) | ((f1 as u32) << 8)) | (f2 as u32) < 0x1000000)
                by (bit_vector);
            if v >= 12000000 {
                assert(d.metadata.frequency == (v * 200) as u32);
                assert(v * 200 < 0x1000000 * 200) by (nonlinear_arith)
                    requires
                        v < 0x1000000,
                ;
                assert(v * 200 >= 2400000000) by (nonlinear_arith)
                    requires
                        v >= 12000000,
                ;
                assert((v * 200) % 200 == 0 && (v * 200) / 200 == v) by (nonlinear_arith);
                assert(spec_freq_ok(d.metadata.frequency));
            } else {
                assert(d.metadata.frequency == (v * 100) as u32);
                assert(v * 100 < 1200000000 && (v * 100) % 100 == 0 && (v * 100) / 100 == v)
                    by (nonlinear_arith)
                    requires
                        v < 12000000,
                ;
                assert(spec_freq_ok(d.metadata.frequency));
            }
        },
        PayloadView::Event(_) => {
        },
        PayloadView::Command(_) => {
        },
    }
}

/// A mesh packet decoded from the wire survives the re-encode: the bytes
/// it encodes to decode back to the very same packet.  Together with the
/// contracts of `from_slice` and `to_vec` this closes the round trip on
/// every received frame.
pub proof fn lemma_parsed_packet_round_trip(b: Seq<u8>, p: MeshPacketView)
    requires
        MeshPacketView::spec_parse(b) == Some(p),
    ensures
        MeshPacketView::spec_parse(p.spec_bytes()) == Some(p),
{
    lemma_parsed_packet_wf(b, p);
    lemma_mesh_packet_round_trip(p);
}

/// Decrypting an encrypted event list gives the list back: counter-mode
/// encryption is its own inverse, and parsing inverts serialization.
pub proof fn lemma_event_encrypt_decrypt_identity(key: Seq<u8>, p: EventPayloadView)
    requires
        p.plaintext_form(),
    ensures
        ({
            let enc = spec_crypt(key, false, p.relay_id, p.timestamp, spec_events_bytes(p.events));
            spec_parse_events(spec_crypt(key, false, p.relay_id, p.timestamp, enc)) == Some(
                p.events,
            )
        }),
{
    let blob = spec_events_bytes(p.events);
    lemma_crypt_involution(key, false, p.relay_id, p.timestamp, blob);
    lemma_events_round_trip(p.events);
}

/// Decrypting an encrypted command list gives the list back.
pub proof fn lemma_command_encrypt_decrypt_identity(key: Seq<u8>, p: CommandPayloadView)
    requires
        p.plaintext_form(),
    ensures
        ({
            let enc = spec_crypt(
                key,
                true,
                p.relay_id,
                p.timestamp,
                spec_commands_bytes(p.commands),
            );
            spec_parse_commands(spec_crypt(key, true, p.relay_id, p.timestamp, enc)) == Some(
                p.commands,
            )
        }),
{
    let blob = spec_commands_bytes(p.commands);
    lemma_crypt_involution(key, true, p.relay_id, p.timestamp, blob);
    lemma_commands_round_trip(p.commands);
}

} // verus!

