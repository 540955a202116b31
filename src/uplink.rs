//! Uplinks as the relay receives them, and the link statistics drawn from
//! their metadata.

use vstd::prelude::*;

verus! {

/// A binary64 value as a gateway reports it: its IEEE 754 bit pattern, and
/// its shortest round-trip decimal text (as the host's float display writes
/// it), which is what the time-series sink receives.
#[derive(Debug, Clone)]
pub struct Binary64 {
    /// The IEEE 754 binary64 bit pattern.
    pub bits: u64,
    /// The shortest decimal text that reads back as the same value.
    pub text: String,
}

impl Binary64 {
    /// A copy of the value.
    pub fn duplicate(&self) -> (r: Binary64)
        ensures
            r == *self,
    {
        Binary64 { bits: self.bits, text: self.text.clone() }
    }
}

/// What one receiving gateway reported of an uplink.
#[derive(Debug, Clone)]
pub struct ReceivingGateway {
    /// Received signal strength in dBm.
    pub rssi: Binary64,
    /// Signal-to-noise ratio in dB, when reported.
    pub snr: Option<Binary64>,
}

/// Link metadata of one uplink.
#[derive(Debug, Clone)]
pub struct MeasurementMeta {
    /// Consumed airtime in milliseconds.
    pub airtime_ms: u32,
    /// LoRa spreading factor, when the uplink used a LoRa data rate.
    pub spreading_factor: Option<u16>,
    /// LoRa bandwidth in Hz, when the uplink used a LoRa data rate.
    pub bandwidth: Option<u64>,
    /// The gateways that received the uplink, in the order reported.
    pub receiving_gateways: Vec<ReceivingGateway>,
}

/// One device uplink.
#[derive(Debug, Clone)]
pub struct RawUplink {
    /// The device EUI.
    pub dev_eui: String,
    /// The LoRaWAN frame port.
    pub frame_port: u16,
    /// The raw application payload.
    pub payload: Vec<u8>,
    /// Link metadata.
    pub meta: MeasurementMeta,
}

/// The position of a binary64 bit pattern in IEEE 754 `totalOrder`, as an
/// integer: negative patterns come below positive ones, in reverse order of
/// their bits.
pub open spec fn total_key(bits: u64) -> int {
    if bits < 0x8000_0000_0000_0000 {
        bits as int
    } else {
        0x7fff_ffff_ffff_ffff - bits
    }
}

/// `a` comes no later than `b` in IEEE 754 `totalOrder`.
pub fn total_le(a: u64, b: u64) -> (r: bool)
    ensures
        r == (total_key(a) <= total_key(b)),
{
    let a_negative = a >= 0x8000_0000_0000_0000;
    let b_negative = b >= 0x8000_0000_0000_0000;
    if a_negative && b_negative {
        a >= b
    } else if a_negative {
        true
    } else if b_negative {
        false
    } else {
        a <= b
    }
}

/// The greatest value of `vs` in `totalOrder`, the last one among equals.
pub open spec fn max_total(vs: Seq<Binary64>) -> Option<Binary64>
    decreases vs.len(),
{
    if vs.len() == 0 {
        None
    } else {
        let last = vs.last();
        match max_total(vs.drop_last()) {
            None => Some(last),
            Some(m) => if total_key(m.bits) <= total_key(last.bits) {
                Some(last)
            } else {
                Some(m)
            },
        }
    }
}

/// The RSSI values of the gateways, in order.
pub open spec fn rssi_values(gws: Seq<ReceivingGateway>) -> Seq<Binary64> {
    gws.map_values(|g: ReceivingGateway| g.rssi)
}

/// The SNR values that the gateways reported, in order.
pub open spec fn snr_values(gws: Seq<ReceivingGateway>) -> Seq<Binary64>
    decreases gws.len(),
{
    if gws.len() == 0 {
        seq![]
    } else {
        let rest = snr_values(gws.drop_last());
        match gws.last().snr {
            Some(v) => rest.push(v),
            None => rest,
        }
    }
}

impl MeasurementMeta {
    /// The greatest RSSI among the receiving gateways.
    pub open spec fn max_rssi_spec(&self) -> Option<Binary64> {
        max_total(rssi_values(self.receiving_gateways@))
    }

    /// The greatest SNR that a receiving gateway reported.
    pub open spec fn max_snr_spec(&self) -> Option<Binary64> {
        max_total(snr_values(self.receiving_gateways@))
    }

    /// The greatest RSSI among the receiving gateways, by `totalOrder`.
    pub fn max_rssi(&self) -> (r: Option<Binary64>)
        ensures
            r == self.max_rssi_spec(),
    {
        let gws = &self.receiving_gateways;
        let mut best: Option<Binary64> = None;
        let mut i: usize = 0;
        while i < gws.len()
            invariant
                i <= gws@.len(),
                best == max_total(rssi_values(gws@.take(i as int))),
            decreases gws@.len() - i,
        {
            proof {
                assert(rssi_values(gws@.take(i as int + 1)).drop_last() =~= rssi_values(
                    gws@.take(i as int),
                ));
            }
            let v = &gws[i].rssi;
            best = match best {
                None => Some(v.duplicate()),
                Some(m) => if total_le(m.bits, v.bits) {
                    Some(v.duplicate())
                } else {
                    Some(m)
                },
            };
            i = i + 1;
        }
        proof {
            assert(gws@.take(gws@.len() as int) =~= gws@);
        }
        best
    }

    /// The greatest SNR that a receiving gateway reported, by `totalOrder`.
    pub fn max_snr(&self) -> (r: Option<Binary64>)
        ensures
            r == self.max_snr_spec(),
    {
        let gws = &self.receiving_gateways;
        let mut best: Option<Binary64> = None;
        let mut i: usize = 0;
        while i < gws.len()
            invariant
                i <= gws@.len(),
                best == max_total(snr_values(gws@.take(i as int))),
            decreases gws@.len() - i,
        {
            proof {
                assert(gws@.take(i as int + 1).drop_last() =~= gws@.take(i as int));
            }
            match &gws[i].snr {
                None => {},
                Some(v) => {
                    best = match best {
                        None => Some(v.duplicate()),
                        Some(m) => if total_le(m.bits, v.bits) {
                            Some(v.duplicate())
                        } else {
                            Some(m)
                        },
                    };
                    proof {
                        let s = snr_values(gws@.take(i as int + 1));
                        assert(s.drop_last() =~= snr_values(gws@.take(i as int)));
                    }
                },
            }
            i = i + 1;
        }
        proof {
            assert(gws@.take(gws@.len() as int) =~= gws@);
        }
        best
    }
}

} // verus!
