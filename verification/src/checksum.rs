//! The rolling integrity value that protects chunks and headers.

use vstd::prelude::*;

verus! {

/// The value that the first byte of a stream is mixed with.
pub const SEED: u8 = 0xAB;

/// What the checksum keeps between two bytes: the total so far and the byte
/// that the next byte is mixed with.
pub struct Rolling {
    pub total: u16,
    pub carried: u8,
}

/// The state after one more byte `b`. The byte is mixed by exclusive-or with
/// the carried byte; the mixed byte is added to the total, which wraps
/// around at 16 bits; the byte carried on is the mixed byte less the high
/// byte of the new total, which wraps around at 8 bits.
pub open spec fn step(before: Rolling, b: u8) -> Rolling {
    let mixed: u8 = b ^ before.carried;
    let total: u16 = ((before.total + mixed) % 0x1_0000) as u16;
    let high: int = total as int / 256;
    Rolling { total, carried: ((mixed - high + 256) % 256) as u8 }
}

/// The state after all of `data`, starting from a total of zero and the
/// seed as the carried byte.
pub open spec fn rolling(data: Seq<u8>) -> Rolling
    decreases data.len(),
{
    if data.len() == 0 {
        Rolling { total: 0, carried: SEED }
    } else {
        step(rolling(data.drop_last()), data.last())
    }
}

/// The checksum of `data`: the total after its last byte.
pub open spec fn checksum_of(data: Seq<u8>) -> u16 {
    rolling(data).total
}

/// One step in wrapping machine arithmetic is one step of the state.
proof fn lemma_step_in_machine_words(before: Rolling, b: u8, total: u16, carried: u8)
    requires
        total == if before.total + (b ^ before.carried) > u16::MAX {
            before.total + (b ^ before.carried) - 0x1_0000
        } else {
            before.total + (b ^ before.carried)
        },
        carried == if (b ^ before.carried) - total / 256 < 0 {
            (b ^ before.carried) - total / 256 + 0x100
        } else {
            (b ^ before.carried) - total / 256
        },
    ensures
        step(before, b) == (Rolling { total, carried }),
{
    let mixed: u8 = b ^ before.carried;
    let sum: int = before.total + mixed;
    assert(sum % 0x1_0000 == total) by {
        if sum > u16::MAX {
            assert(sum == 0x1_0000 + total);
        }
    }
    let high: int = total as int / 256;
    assert((mixed - high + 256) % 256 == carried) by {
        if mixed - high < 0 {
            assert(mixed - high + 256 == carried);
        } else {
            assert(mixed - high + 256 == 256 + carried);
        }
    }
}

/// Creates a checksum given a stream of bytes.
///
/// Every byte is mixed by exclusive-or with the byte carried over from the
/// step before, or with the seed at the start. The mixed byte is added to a
/// total of 16 bits that wraps around. The byte carried over to the next
/// step is the mixed byte less the high byte of that total, in 8 bits that
/// wrap around. The total after the last byte is the checksum.
pub fn checksum(data: &[u8]) -> (total: u16)
    ensures
        total == checksum_of(data@),
{
    let mut total: u16 = 0;
    let mut prev: u8 = SEED;
    let mut i: usize = 0;
    while i < data.len()
        invariant
            0 <= i <= data.len(),
            rolling(data@.take(i as int)) == (Rolling { total, carried: prev }),
        decreases data.len() - i,
    {
        let new_byte: u8 = data[i] ^ prev;
        let ghost before = Rolling { total, carried: prev };
        total = total.wrapping_add(new_byte as u16);
        let shifted: u16 = total >> 8;
        assert(shifted == total / 256 && shifted < 256) by (bit_vector)
            requires
                shifted == total >> 8,
        ;
        prev = new_byte.wrapping_sub(shifted as u8);
        proof {
            lemma_step_in_machine_words(before, data@[i as int], total, prev);
            let after = data@.take(i + 1);
            assert(after.drop_last() =~= data@.take(i as int));
            assert(after.last() == data@[i as int]);
        }
        i += 1;
    }
    proof {
        assert(data@.take(data@.len() as int) =~= data@);
    }
    total
}

} // verus!
