//! The mapping tables between wire indexes and radio parameters.
//!
//! The wire format carries small indexes — a channel byte, a four-bit
//! data rate, a four-bit TX power — and the mapping tables translate them
//! to and from frequencies, modulation parameters and EIRP values.

use vstd::prelude::*;

use crate::config::{DataRate, Mappings};
use crate::error::Error;

verus! {

/// The least index at which the sequence holds the value, if any.
pub open spec fn spec_first_index_u32(s: Seq<u32>, v: u32) -> Option<int>
    decreases s.len(),
{
    if s.len() == 0 {
        None
    } else if s[0] == v {
        Some(0)
    } else {
        match spec_first_index_u32(s.drop_first(), v) {
            None => None,
            Some(i) => Some(i + 1),
        }
    }
}

/// The least matching index is a match, earlier indexes are not, and no
/// result means no index matches.
pub proof fn lemma_first_index_u32(s: Seq<u32>, v: u32)
    ensures
        match spec_first_index_u32(s, v) {
            Some(i) => 0 <= i < s.len() && s[i] == v && forall|j: int| 0 <= j < i ==> s[j] != v,
            None => forall|j: int| 0 <= j < s.len() ==> s[j] != v,
        },
    decreases s.len(),
{
    if s.len() == 0 {
    } else if s[0] == v {
        assert(spec_first_index_u32(s, v) == Some(0int));
    } else {
        lemma_first_index_u32(s.drop_first(), v);
        match spec_first_index_u32(s.drop_first(), v) {
            None => {
                assert forall|j: int| 0 <= j < s.len() implies s[j] != v by {
                    if j > 0 {
                        assert(s.drop_first()[j - 1] == s[j]);
                    }
                }
            },
            Some(i) => {
                assert(spec_first_index_u32(s, v) == Some(i + 1));
                assert(s.drop_first()[i] == s[i + 1]);
                assert forall|j: int| 0 <= j < i + 1 implies s[j] != v by {
                    if j > 0 {
                        assert(s.drop_first()[j - 1] == s[j]);
                    }
                }
            },
        }
    }
}

/// Maps a frequency to its channel index: the least index of the channel
/// table that holds the frequency.  A frequency outside the table is
/// refused.  The exact index is pinned for tables of at most 256
/// entries, the most a channel byte can name.
pub fn frequency_to_chan(mappings: &Mappings, freq: u32) -> (r: Result<u8, Error>)
    ensures
        r is Err <==> spec_first_index_u32(mappings.channels@, freq) is None,
        r is Err ==> r == Err::<u8, Error>(Error::NoChannelForFrequency),
        mappings.channels@.len() <= 256 ==> (r matches Ok(c) ==> Some(c as int)
            == spec_first_index_u32(mappings.channels@, freq)),
{
    proof {
        lemma_first_index_u32(mappings.channels@, freq);
    }
    let mut i: usize = 0;
    while i < mappings.channels.len()
        invariant
            i <= mappings.channels@.len(),
            forall|j: int| 0 <= j < i ==> mappings.channels@[j] != freq,
        decreases mappings.channels@.len() - i,
    {
        if mappings.channels[i] == freq {
            proof {
                lemma_first_index_u32(mappings.channels@, freq);
            }
            return Ok(#[verifier::truncate] (i as u8));
        }
        i = i + 1;
    }
    Err(Error::NoChannelForFrequency)
}

/// Maps a channel index to its frequency.  An index outside the channel
/// table is refused.
pub fn chan_to_frequency(mappings: &Mappings, chan: u8) -> (r: Result<u32, Error>)
    ensures
        chan < mappings.channels@.len() ==> r == Ok::<u32, Error>(mappings.channels@[chan as int]),
        chan >= mappings.channels@.len() ==> r == Err::<u32, Error>(Error::NoFrequencyForChannel),
{
    if (chan as usize) < mappings.channels.len() {
        Ok(mappings.channels[chan as usize])
    } else {
        Err(Error::NoFrequencyForChannel)
    }
}

/// The least index at which the table holds the data rate, if any.
pub open spec fn spec_first_index_dr(s: Seq<DataRate>, v: DataRate) -> Option<int>
    decreases s.len(),
{
    if s.len() == 0 {
        None
    } else if s[0] == v {
        Some(0)
    } else {
        match spec_first_index_dr(s.drop_first(), v) {
            None => None,
            Some(i) => Some(i + 1),
        }
    }
}

/// The least matching index is a match, earlier indexes are not, and no
/// result means no index matches.
pub proof fn lemma_first_index_dr(s: Seq<DataRate>, v: DataRate)
    ensures
        match spec_first_index_dr(s, v) {
            Some(i) => 0 <= i < s.len() && s[i] == v && forall|j: int| 0 <= j < i ==> s[j] != v,
            None => forall|j: int| 0 <= j < s.len() ==> s[j] != v,
        },
    decreases s.len(),
{
    if s.len() == 0 {
    } else if s[0] == v {
        assert(spec_first_index_dr(s, v) == Some(0int));
    } else {
        lemma_first_index_dr(s.drop_first(), v);
        match spec_first_index_dr(s.drop_first(), v) {
            None => {
                assert forall|j: int| 0 <= j < s.len() implies s[j] != v by {
                    if j > 0 {
                        assert(s.drop_first()[j - 1] == s[j]);
                    }
                }
            },
            Some(i) => {
                assert(spec_first_index_dr(s, v) == Some(i + 1));
                assert(s.drop_first()[i] == s[i + 1]);
                assert forall|j: int| 0 <= j < i + 1 implies s[j] != v by {
                    if j > 0 {
                        assert(s.drop_first()[j - 1] == s[j]);
                    }
                }
            },
        }
    }
}

/// Maps a canonical data rate to its index: the least index of the
/// data-rate table that holds an equal entry.  A data rate outside the
/// table is refused.  The exact index is pinned for tables of at most
/// 256 entries, the most the four-bit field grew from a byte can name.
pub fn modulation_to_dr(mappings: &Mappings, dr: &DataRate) -> (r: Result<u8, Error>)
    ensures
        r is Err <==> spec_first_index_dr(mappings.data_rates@, *dr) is None,
        r is Err ==> r == Err::<u8, Error>(Error::NoDataRateMatch),
        mappings.data_rates@.len() <= 256 ==> (r matches Ok(c) ==> Some(c as int)
            == spec_first_index_dr(mappings.data_rates@, *dr)),
{
    proof {
        lemma_first_index_dr(mappings.data_rates@, *dr);
    }
    let mut i: usize = 0;
    while i < mappings.data_rates.len()
        invariant
            i <= mappings.data_rates@.len(),
            forall|j: int| 0 <= j < i ==> mappings.data_rates@[j] != *dr,
        decreases mappings.data_rates@.len() - i,
    {
        if mappings.data_rates[i] == *dr {
            proof {
                lemma_first_index_dr(mappings.data_rates@, *dr);
            }
            return Ok(#[verifier::truncate] (i as u8));
        }
        i = i + 1;
    }
    Err(Error::NoDataRateMatch)
}

/// Maps a data-rate index to its canonical data rate.  An index outside
/// the data-rate table is refused.
pub fn dr_to_modulation(mappings: &Mappings, dr: u8) -> (r: Result<DataRate, Error>)
    ensures
        dr < mappings.data_rates@.len() ==> r == Ok::<DataRate, Error>(
            mappings.data_rates@[dr as int],
        ),
        dr >= mappings.data_rates@.len() ==> r == Err::<DataRate, Error>(
            Error::NoModulationForDataRate,
        ),
{
    if (dr as usize) < mappings.data_rates.len() {
        Ok(mappings.data_rates[dr as usize])
    } else {
        Err(Error::NoModulationForDataRate)
    }
}

/// Whether an index is the TX power index for a requested EIRP: the
/// least index holding the largest configured value at or below the
/// request.
pub open spec fn spec_is_tx_power_index(s: Seq<i32>, p: i32, i: int) -> bool {
    &&& 0 <= i < s.len()
    &&& s[i] <= p
    &&& forall|j: int| 0 <= j < s.len() && #[trigger] s[j] <= p ==> s[j] <= s[i]
    &&& forall|j: int| 0 <= j < i ==> s[j] != s[i]
}

/// Maps a requested EIRP to a TX power index: the index of the largest
/// configured value at or below the request (the least such index when
/// the value repeats).  A request below every entry is refused.  The
/// exact index is pinned for tables of at most 256 entries.
pub fn tx_power_to_index(mappings: &Mappings, tx_power: i32) -> (r: Result<u8, Error>)
    ensures
        r is Err <==> (forall|j: int|
            0 <= j < mappings.tx_power@.len() ==> mappings.tx_power@[j] > tx_power),
        r is Err ==> r == Err::<u8, Error>(Error::NoTxPowerIndex),
        mappings.tx_power@.len() <= 256 ==> (r matches Ok(c) ==> spec_is_tx_power_index(
            mappings.tx_power@,
            tx_power,
            c as int,
        )),
{
    let ghost s = mappings.tx_power@;
    let mut out: Option<usize> = None;
    let mut i: usize = 0;
    while i < mappings.tx_power.len()
        invariant
            s == mappings.tx_power@,
            i <= s.len(),
            out is None ==> forall|j: int| 0 <= j < i ==> s[j] > tx_power,
            out matches Some(v) ==> {
                &&& v < i
                &&& s[v as int] <= tx_power
                &&& forall|j: int| 0 <= j < i && #[trigger] s[j] <= tx_power ==> s[j] <= s[v as int]
                &&& forall|j: int| 0 <= j < v ==> s[j] != s[v as int]
            },
        decreases s.len() - i,
    {
        if mappings.tx_power[i] <= tx_power {
            match out {
                Some(v) => {
                    if mappings.tx_power[v] < mappings.tx_power[i] {
                        out = Some(i);
                    }
                },
                None => {
                    out = Some(i);
                },
            }
        }
        i = i + 1;
    }
    match out {
        Some(v) => Ok(#[verifier::truncate] (v as u8)),
        None => Err(Error::NoTxPowerIndex),
    }
}

/// Maps a TX power index to its EIRP.  An index outside the TX power
/// table is refused.
pub fn index_to_tx_power(mappings: &Mappings, tx_power: u8) -> (r: Result<i32, Error>)
    ensures
        tx_power < mappings.tx_power@.len() ==> r == Ok::<i32, Error>(
            mappings.tx_power@[tx_power as int],
        ),
        tx_power >= mappings.tx_power@.len() ==> r == Err::<i32, Error>(
            Error::TxPowerIndexOutOfRange,
        ),
{
    if (tx_power as usize) < mappings.tx_power.len() {
        Ok(mappings.tx_power[tx_power as usize])
    } else {
        Err(Error::TxPowerIndexOutOfRange)
    }
}

} // verus!
