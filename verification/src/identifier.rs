use vstd::prelude::*;

verus! {

/// Milliseconds from the Unix epoch to the epoch of snowflake identifiers.
pub const CHRONOGRAPHER_EPOCH_MS: u64 = 1772985384873u64;

/// The identifier made of a millisecond timestamp (the high bits) and a sequence number (the
/// low 16 bits), cut to 64 bits.
pub open spec fn snowflake_of(timestamp: int, sequence: int) -> int {
    (timestamp * 65536 + sequence) % 0x1_0000_0000_0000_0000
}

/// The identifier that follows the last one, `prev`, when the clock reads `now` milliseconds
/// after the epoch of identifiers: the next sequence number in the same millisecond, or
/// sequence 0 in another one; none when the sequence of the millisecond is used up.
pub open spec fn snowflake_successor(prev: u64, now: u64) -> Option<u64> {
    let last_timestamp = prev / 65536;
    let last_sequence = prev % 65536;
    if now == last_timestamp {
        if last_sequence + 1 == 65536 {
            None
        } else {
            Some(snowflake_of(now as int, last_sequence + 1) as u64)
        }
    } else {
        Some(snowflake_of(now as int, 0) as u64)
    }
}

/// A task identifier made of a timestamp and a sequence number, unique among the identifiers
/// generated by one process.
#[derive(Clone, Copy, PartialEq, Eq, Debug, Hash, Structural)]
pub struct SnowflakeID(u64);

impl SnowflakeID {
    pub closed spec fn value(self) -> u64 {
        self.0
    }

    /// The identifier whose 64-bit value is `value`.
    pub fn from_value(value: u64) -> (r: Self)
        ensures
            r.value() == value,
    {
        SnowflakeID(value)
    }

    /// The identifier's 64-bit value.
    pub fn as_u64(&self) -> (r: u64)
        ensures
            r == self.value(),
    {
        self.0
    }

    /// The identifier as a `usize` (cut to the width of `usize`).
    pub fn as_usize(&self) -> (r: usize)
        ensures
            r == self.value() as usize,
    {
        #[verifier::truncate]
        (self.0 as usize)
    }

    /// One step of generating an identifier: the identifier that follows `prev`, the last
    /// identifier's value, when the clock reads `unix_ms` milliseconds after the Unix epoch
    /// (see `snowflake_successor`); none when the caller has to read the clock again.
    pub fn next_after(prev: u64, unix_ms: u64) -> (r: Option<SnowflakeID>)
        requires
            unix_ms >= CHRONOGRAPHER_EPOCH_MS,
        ensures
            match snowflake_successor(prev, (unix_ms - CHRONOGRAPHER_EPOCH_MS) as u64) {
                Some(v) => r matches Some(id) && id.value() == v,
                None => r is None,
            },
    {
        let now = unix_ms - CHRONOGRAPHER_EPOCH_MS;
        let last_timestamp = prev >> 16;
        let last_sequence = prev & 0xFFFF;
        proof {
            assert(last_timestamp == prev / 65536) by (bit_vector)
                requires
                    last_timestamp == prev >> 16,
            ;
            assert(last_sequence == prev % 65536) by (bit_vector)
                requires
                    last_sequence == prev & 0xFFFF,
            ;
        }
        let (timestamp, sequence) = if now == last_timestamp {
            let incremented: u64 = last_sequence + 1;
            let next_seq = incremented & 0xFFFF;
            proof {
                assert(next_seq == incremented % 65536) by (bit_vector)
                    requires
                        next_seq == incremented & 0xFFFF,
                ;
            }
            if next_seq == 0 {
                return None;
            }
            (now, next_seq)
        } else {
            (now, 0u64)
        };
        let new_id = (timestamp << 16) | sequence;
        proof {
            assert(new_id == ((timestamp as int * 65536 + sequence as int) % 0x1_0000_0000_0000_0000)
                as u64) by (bit_vector)
                requires
                    new_id == (timestamp << 16) | sequence,
                    sequence < 65536,
            ;
        }
        Some(SnowflakeID(new_id))
    }
}

/// Identifiers increase: when the clock does not go back and stays below 2^48 milliseconds
/// after the epoch, the identifier that follows `prev` is greater than it.
pub proof fn law_snowflake_increases(prev: u64, now: u64)
    requires
        now >= prev / 65536,
        now < 0x1_0000_0000_0000,
    ensures
        snowflake_successor(prev, now) matches Some(n) ==> n > prev,
{
    assert(prev == (prev / 65536) * 65536 + prev % 65536);
    if now > prev / 65536 {
        assert(now * 65536 >= (prev / 65536 + 1) * 65536);
    }
}

} // verus!
