use vstd::prelude::*;

verus! {

/// The low 16 bits of a millisecond timestamp, as carried in acknowledgement
/// commands. The full timestamp is recovered against the receiver's current
/// clock with `to_duration`.
#[derive(Debug, Clone, Copy, PartialEq, Eq, Structural)]
pub struct PacketTime(pub u16);

/// The expansion of a 16-bit packet time against the current time `curr`
/// (both in milliseconds): the low 16 bits of `curr` are replaced by `pt`;
/// when the 16-bit sign bit changes direction — set in the packet time but
/// clear in the current time — the clock has wrapped past the stamp's
/// window, and the value is pulled back by one 16-bit wrap; a result in the
/// future of `curr` is invalid.
pub open spec fn spec_expand_packet_time(pt: u16, curr: u64) -> Option<u64> {
    let lower = pt as u64;
    let base = curr & 0xFFFF_FFFF_FFFF_0000;
    let combined = base | lower;
    if (lower & 0x8000) > (curr & 0x8000) {
        if combined < 0x10000 {
            None
        } else if combined - 0x10000 > curr {
            None
        } else {
            Some((combined - 0x10000) as u64)
        }
    } else {
        if combined > curr {
            None
        } else {
            Some(combined)
        }
    }
}

impl PacketTime {
    /// Truncate a duration since the host epoch (in milliseconds) to its low
    /// 16 bits.
    pub fn from_duration(millis: u64) -> (r: PacketTime)
        ensures
            r.0 == millis % 0x10000,
    {
        PacketTime((millis % 0x10000) as u16)
    }

    /// Expand this 16-bit packet time against the current duration since the
    /// host epoch, `curr_millis`. Returns `None` when the expansion would lie
    /// in the future of `curr_millis` (an invalid acknowledgement).
    pub fn to_duration(&self, curr_millis: u64) -> (r: Option<u64>)
        ensures
            r == spec_expand_packet_time(self.0, curr_millis),
            r matches Some(d) ==> d <= curr_millis,
    {
        let lower: u64 = self.0 as u64;
        let curr_mill: u64 = curr_millis & 0xFFFF_FFFF_FFFF_0000;
        let mut dur: u64 = curr_mill | lower;

        proof {
            assert(((curr_millis & 0xFFFF_FFFF_FFFF_0000) | lower) & 0x8000 == lower & 0x8000)
                by (bit_vector);
        }

        if (dur & 0x8000) > (curr_millis & 0x8000) {
            if dur < 0x10000 {
                return None;
            }
            dur = dur - 0x10000;
        }

        if dur > curr_millis {
            return None;
        }

        Some(dur)
    }
}

/// A packet time expanded against the very duration it was taken from is
/// recovered exactly, for every duration that fits the 16-bit field.
pub proof fn lemma_packet_time_round_trip(millis: u64)
    requires
        millis < 0x10000,
    ensures
        spec_expand_packet_time((millis % 0x10000) as u16, millis) == Some(millis),
{
    let pt = (millis % 0x10000) as u16;
    assert(pt as u64 == millis);
    assert(millis & 0xFFFF_FFFF_FFFF_0000 == 0 && (0u64 | millis) == millis) by (bit_vector)
        requires millis < 0x10000u64,
    ;
    assert(!((millis & 0x8000) > (millis & 0x8000)));
}

} // verus!
