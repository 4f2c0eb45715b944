//! The library's error type.
//!
//! Every fallible operation of the library reports one of these variants;
//! `message` gives the human-readable text that the process logs.

use vstd::prelude::*;

verus! {

/// Why an operation of the library was refused.
#[derive(Clone, Copy, Debug, PartialEq, Eq, Structural)]
pub enum Error {
    /// Decoding was handed an empty byte string.
    EmptyInput,
    /// Too few bytes to hold the header and the MIC.
    NotEnoughBytes,
    /// The top three bits of the first byte are not the proprietary marker.
    InvalidMType,
    /// A payload-type nibble outside the known range.
    UnexpectedPayloadType,
    /// The packet has no MIC yet.
    MicNone,
    /// A hop count below one.
    MinHopCount,
    /// A hop count above eight.
    MaxHopCount,
    /// An uplink payload needs at least nine bytes.
    UplinkPayloadTooShort,
    /// A downlink payload needs at least ten bytes.
    DownlinkPayloadTooShort,
    /// An event or command payload needs at least eight bytes.
    EventPayloadTooShort,
    /// The heartbeat value is not a whole number of relay-path entries.
    InvalidRelayPathBytes,
    /// A decrypted event or command blob with a truncated entry.
    TruncatedTlv,
    /// An uplink id above 4095.
    MaxUplinkId,
    /// A data-rate index above 15.
    MaxDr,
    /// An RSSI above zero.
    MaxRssi,
    /// An RSSI below -255.
    MinRssi,
    /// An SNR above 31.
    MaxSnr,
    /// An SNR below -32.
    MinSnr,
    /// A TX power index above 15.
    MaxTxPower,
    /// A delay below one second.
    MinDelay,
    /// A delay above sixteen seconds.
    MaxDelay,
    /// A frequency whose step count does not fit in three bytes.
    MaxFrequency,
    /// A frequency that is not a multiple of its step.
    FrequencyStep,
    /// A frequency field that is not exactly three bytes.
    FrequencyByteLen,
    /// An event or command value longer than a one-byte length can hold.
    ValueTooLong,
    /// A key that is not exactly sixteen bytes.
    KeyLength,
    /// An event list that still holds an encrypted blob.
    EventsNotDecrypted,
    /// No mesh frequencies are configured.
    NoMeshFrequencies,
    /// No stored radio context for the uplink id.
    NoUplinkContext,
    /// The frequency is not in the channel mapping.
    NoChannelForFrequency,
    /// The channel index is outside the channel mapping.
    NoFrequencyForChannel,
    /// The data rate matches no entry of the data-rate mapping.
    NoDataRateMatch,
    /// The data-rate index is outside the data-rate mapping.
    NoModulationForDataRate,
    /// No configured TX power at or below the requested one.
    NoTxPowerIndex,
    /// The TX power index is outside the TX power mapping.
    TxPowerIndexOutOfRange,
    /// Relaying would push the hop count over the configured maximum.
    MaxHopCountExceeded,
    /// A downlink item with a timing other than delay.
    OnlyDelayTiming,
    /// A downlink context too short to carry relay id and uplink id.
    ContextTooShort,
    /// A command packet whose timestamp did not move forward.
    TimestampNotIncremented,
    /// A mesh packet of a payload type the handler does not take.
    UnexpectedPayload,
}

impl Error {
    /// The log text of this error.
    pub fn message(&self) -> (r: &'static str)
        ensures
            r@ == self.spec_message(),
    {
        match self {
            Error::EmptyInput => "Input is empty",
            Error::NotEnoughBytes => "Not enough bytes to decode mhdr + mic",
            Error::InvalidMType => "Invalid MType",
            Error::UnexpectedPayloadType => "Unexpected PayloadType",
            Error::MicNone => "MIC is None",
            Error::MinHopCount => "Min hop_count is 1",
            Error::MaxHopCount => "Max hop_count is 8",
            Error::UplinkPayloadTooShort => "At least 9 bytes are expected",
            Error::DownlinkPayloadTooShort => "At least 10 bytes are expected",
            Error::EventPayloadTooShort => "At least 8 bytes are expected",
            Error::InvalidRelayPathBytes => "Invalid amount of Relay path bytes",
            Error::TruncatedTlv => "Not enough bytes to decode the value",
            Error::MaxUplinkId => "Max uplink_id value is 4095",
            Error::MaxDr => "Max dr value is 15",
            Error::MaxRssi => "Max rssi value is 0",
            Error::MinRssi => "Min rssi value is -255",
            Error::MaxSnr => "Max snr value is 31",
            Error::MinSnr => "Min snr value is -32",
            Error::MaxTxPower => "Max tx_power value is 15",
            Error::MinDelay => "Min delay value is 1",
            Error::MaxDelay => "Max delay value is 16",
            Error::MaxFrequency => "Max frequency value is 2^24 - 1",
            Error::FrequencyStep => "Frequency must be multiple of 100",
            Error::FrequencyByteLen => "3 bytes expected for frequency",
            Error::ValueTooLong => "Max value length is 255",
            Error::KeyLength => "16 bytes are expected",
            Error::EventsNotDecrypted => "Events must be decrypted first",
            Error::NoMeshFrequencies => "No mesh frequencies are configured",
            Error::NoUplinkContext => "No uplink context for uplink_id",
            Error::NoChannelForFrequency => "Frequency does not map to a channel",
            Error::NoFrequencyForChannel => "Channel does not map to a frequency",
            Error::NoDataRateMatch => "Modulation does not map to a data-rate",
            Error::NoModulationForDataRate => "Data-rate does not map to a modulation",
            Error::NoTxPowerIndex => "No TX Power equal or lower",
            Error::TxPowerIndexOutOfRange => "TX Power index does not exist",
            Error::MaxHopCountExceeded => "Max hop count exceeded",
            Error::OnlyDelayTiming => "Only Delay timing is supported",
            Error::ContextTooShort => "context does not contain enough bytes",
            Error::TimestampNotIncremented => {
                "Command timestamp did not increment compared to previous command payload"
            },
            Error::UnexpectedPayload => "Unexpected payload",
        }
    }

    /// The log text, as a sequence of characters.
    pub open spec fn spec_message(&self) -> Seq<char> {
        match self {
            Error::EmptyInput => "Input is empty"@,
            Error::NotEnoughBytes => "Not enough bytes to decode mhdr + mic"@,
            Error::InvalidMType => "Invalid MType"@,
            Error::UnexpectedPayloadType => "Unexpected PayloadType"@,
            Error::MicNone => "MIC is None"@,
            Error::MinHopCount => "Min hop_count is 1"@,
            Error::MaxHopCount => "Max hop_count is 8"@,
            Error::UplinkPayloadTooShort => "At least 9 bytes are expected"@,
            Error::DownlinkPayloadTooShort => "At least 10 bytes are expected"@,
            Error::EventPayloadTooShort => "At least 8 bytes are expected"@,
            Error::InvalidRelayPathBytes => "Invalid amount of Relay path bytes"@,
            Error::TruncatedTlv => "Not enough bytes to decode the value"@,
            Error::MaxUplinkId => "Max uplink_id value is 4095"@,
            Error::MaxDr => "Max dr value is 15"@,
            Error::MaxRssi => "Max rssi value is 0"@,
            Error::MinRssi => "Min rssi value is -255"@,
            Error::MaxSnr => "Max snr value is 31"@,
            Error::MinSnr => "Min snr value is -32"@,
            Error::MaxTxPower => "Max tx_power value is 15"@,
            Error::MinDelay => "Min delay value is 1"@,
            Error::MaxDelay => "Max delay value is 16"@,
            Error::MaxFrequency => "Max frequency value is 2^24 - 1"@,
            Error::FrequencyStep => "Frequency must be multiple of 100"@,
            Error::FrequencyByteLen => "3 bytes expected for frequency"@,
            Error::ValueTooLong => "Max value length is 255"@,
            Error::KeyLength => "16 bytes are expected"@,
            Error::EventsNotDecrypted => "Events must be decrypted first"@,
            Error::NoMeshFrequencies => "No mesh frequencies are configured"@,
            Error::NoUplinkContext => "No uplink context for uplink_id"@,
            Error::NoChannelForFrequency => "Frequency does not map to a channel"@,
            Error::NoFrequencyForChannel => "Channel does not map to a frequency"@,
            Error::NoDataRateMatch => "Modulation does not map to a data-rate"@,
            Error::NoModulationForDataRate => "Data-rate does not map to a modulation"@,
            Error::NoTxPowerIndex => "No TX Power equal or lower"@,
            Error::TxPowerIndexOutOfRange => "TX Power index does not exist"@,
            Error::MaxHopCountExceeded => "Max hop count exceeded"@,
            Error::OnlyDelayTiming => "Only Delay timing is supported"@,
            Error::ContextTooShort => "context does not contain enough bytes"@,
            Error::TimestampNotIncremented => {
                "Command timestamp did not increment compared to previous command payload"@
            },
            Error::UnexpectedPayload => "Unexpected payload"@,
        }
    }
}

} // verus!
