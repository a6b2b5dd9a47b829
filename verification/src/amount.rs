//! Amounts of value.

use vstd::prelude::*;

use crate::bytes::{
    le_bytes, le_value, lemma_bytes_of_value, lemma_le_bytes_len, lemma_pow256_monotonic,
    lemma_value_bound, lemma_value_of_bytes, pow256,
};
use crate::error::RecordError;

verus! {

/// The number of bytes that an amount takes.
pub const AMOUNT_SIZE_IN_BYTES: usize = 8;

/// An amount of value; negative amounts are debts.
#[derive(Clone, Copy, Debug, PartialEq, Eq, Structural)]
pub struct AleoAmount(i64);

/// The residue of `value` modulo 2^64: its two's complement.
pub open spec fn twos_complement(value: i64) -> nat {
    if value < 0 {
        (value + 0x1_0000_0000_0000_0000) as nat
    } else {
        value as nat
    }
}

/// The encoding of an amount: its two's complement in little-endian order.
pub open spec fn amount_bytes(value: i64) -> Seq<u8> {
    le_bytes(twos_complement(value), AMOUNT_SIZE_IN_BYTES as nat)
}

/// The amount with the given two's complement.
pub open spec fn from_twos_complement(residue: nat) -> i64 {
    if residue < 0x8000_0000_0000_0000 {
        residue as i64
    } else {
        (residue - 0x1_0000_0000_0000_0000) as i64
    }
}

/// What reading an amount off the front of `bytes` comes to.
pub open spec fn amount_read(bytes: Seq<u8>) -> Result<i64, RecordError> {
    if bytes.len() < AMOUNT_SIZE_IN_BYTES {
        Err(RecordError::UnexpectedEof)
    } else {
        Ok(from_twos_complement(le_value(bytes.take(AMOUNT_SIZE_IN_BYTES as int))))
    }
}

/// An amount is read back from its encoding, and nothing that follows matters.
pub proof fn law_amount_read_gives_back(value: i64, rest: Seq<u8>)
    ensures
        amount_bytes(value).len() == AMOUNT_SIZE_IN_BYTES,
        amount_read(amount_bytes(value) + rest) == Ok::<i64, RecordError>(value),
{
    let residue = twos_complement(value);
    lemma_le_bytes_len(residue, 8);
    assert(pow256(8) == 0x1_0000_0000_0000_0000) by {
        reveal_with_fuel(pow256, 9);
    }
    lemma_value_of_bytes(residue, 8);
    assert((amount_bytes(value) + rest).take(8) =~= amount_bytes(value));
}

/// What an amount was read from is its encoding.
pub proof fn law_amount_read_is_canonical(bytes: Seq<u8>)
    requires
        bytes.len() >= AMOUNT_SIZE_IN_BYTES,
    ensures
        amount_bytes(amount_read(bytes)->Ok_0) == bytes.take(AMOUNT_SIZE_IN_BYTES as int),
{
    let front = bytes.take(8);
    lemma_bytes_of_value(front);
    lemma_value_bound(front);
    assert(pow256(8) == 0x1_0000_0000_0000_0000) by {
        reveal_with_fuel(pow256, 9);
    }
}

/// The encoding of an amount has eight bytes, which are the digits to the base 256 of the amount,
/// least significant digit first; to a negative amount 2^64 is added.
pub proof fn law_amount_bytes_are_digits(value: i64)
    ensures
        amount_bytes(value).len() == 8,
        ({
            let digits = amount_bytes(value);
            digits[0] + 0x100 * digits[1] + 0x1_0000 * digits[2] + 0x100_0000 * digits[3]
                + 0x1_0000_0000 * digits[4] + 0x100_0000_0000 * digits[5] + 0x1_0000_0000_0000
                * digits[6] + 0x100_0000_0000_0000 * digits[7]
        }) == if value < 0 {
            value + 0x1_0000_0000_0000_0000
        } else {
            value as int
        },
{
    law_amount_read_gives_back(value, Seq::empty());
    let digits = amount_bytes(value);
    let residue = twos_complement(value);
    assert(pow256(8) == 0x1_0000_0000_0000_0000) by {
        reveal_with_fuel(pow256, 9);
    }
    lemma_value_of_bytes(residue, 8);
    assert(digits =~= seq![
        digits[0],
        digits[1],
        digits[2],
        digits[3],
        digits[4],
        digits[5],
        digits[6],
        digits[7],
    ]);
    reveal_with_fuel(le_value, 9);
    let s1 = digits.drop_first();
    let s2 = s1.drop_first();
    let s3 = s2.drop_first();
    let s4 = s3.drop_first();
    let s5 = s4.drop_first();
    let s6 = s5.drop_first();
    let s7 = s6.drop_first();
    assert(s7.drop_first().len() == 0);
    assert(le_value(s7) == digits[7]);
    assert(le_value(s6) == digits[6] + 256 * le_value(s7));
    assert(le_value(s5) == digits[5] + 256 * le_value(s6));
    assert(le_value(s4) == digits[4] + 256 * le_value(s5));
    assert(le_value(s3) == digits[3] + 256 * le_value(s4));
    assert(le_value(s2) == digits[2] + 256 * le_value(s3));
    assert(le_value(s1) == digits[1] + 256 * le_value(s2));
    assert(le_value(digits) == digits[0] + 256 * le_value(s1));
}

/// An amount is read off any eight bytes, and it is the one that they are the encoding of. Fewer
/// bytes than that are refused.
pub proof fn law_amounts_are_read(bytes: Seq<u8>, value: i64)
    ensures
        bytes.len() >= 8 ==> (amount_read(bytes) == Ok::<i64, RecordError>(value) <==> amount_bytes(
            value,
        ) == bytes.take(8)),
        bytes.len() >= 8 ==> amount_read(bytes) is Ok,
        bytes.len() < 8 ==> amount_read(bytes) == Err::<i64, RecordError>(
            RecordError::UnexpectedEof,
        ),
{
    if bytes.len() >= 8 {
        law_amount_read_is_canonical(bytes);
        law_amount_read_gives_back(value, bytes.skip(8));
        if amount_bytes(value) == bytes.take(8) {
            assert(amount_bytes(value) + bytes.skip(8) =~= bytes);
        }
    }
}

impl View for AleoAmount {
    type V = i64;

    closed spec fn view(&self) -> i64 {
        self.0
    }
}

impl AleoAmount {
    /// Returns the amount of nothing.
    pub fn zero() -> (amount: AleoAmount)
        ensures
            amount@ == 0,
    {
        AleoAmount(0)
    }

    /// Returns the amount of the given number of units.
    pub fn from_i64(value: i64) -> (amount: AleoAmount)
        ensures
            amount@ == value,
    {
        AleoAmount(value)
    }

    /// Returns the number of units.
    pub fn as_i64(&self) -> (value: i64)
        ensures
            value == self@,
    {
        self.0
    }

    /// Returns `true` if the amount is zero.
    pub fn is_zero(&self) -> (zero: bool)
        ensures
            zero == (self@ == 0),
    {
        self.0 == 0
    }

    /// Appends the encoding of the amount to `out`.
    pub fn write_le(&self, out: &mut Vec<u8>)
        ensures
            final(out)@ == old(out)@ + amount_bytes(self@),
    {
        let value: i64 = self.0;
        let mut rest: u64 = value as u64;
        proof {
            assert((value as u64) == (if value < 0 {
                value + 0x1_0000_0000_0000_0000
            } else {
                value as int
            })) by (bit_vector);
        }
        let mut i: usize = 0;
        while i < 8
            invariant
                i <= 8,
                out@ + le_bytes(rest as nat, (8 - i) as nat) == old(out)@ + amount_bytes(value),
            decreases 8 - i,
        {
            let ghost before = out@;
            let digit: u8 = (rest % 256) as u8;
            out.push(digit);
            proof {
                assert(out@ + le_bytes((rest / 256) as nat, (7 - i) as nat)
                    =~= before + le_bytes(rest as nat, (8 - i) as nat));
            }
            rest = rest / 256;
            i = i + 1;
        }
        assert(out@ + le_bytes(rest as nat, 0) =~= out@);
    }

    /// Reads an amount off the front of `bytes`.
    pub fn read_le(bytes: &[u8]) -> (r: Result<AleoAmount, RecordError>)
        ensures
            match r {
                Ok(amount) => amount_read(bytes@) == Ok::<i64, RecordError>(amount@),
                Err(e) => amount_read(bytes@) == Err::<i64, RecordError>(e),
            },
    {
        if bytes.len() < AMOUNT_SIZE_IN_BYTES {
            return Err(RecordError::UnexpectedEof);
        }
        let ghost front = bytes@.take(8);
        let mut residue: u64 = 0;
        let mut i: usize = 8;
        proof {
            assert(front.skip(8) =~= Seq::<u8>::empty());
            reveal_with_fuel(pow256, 9);
        }
        while i > 0
            invariant
                i <= 8,
                bytes@.len() >= 8,
                front == bytes@.take(8),
                residue == le_value(front.skip(i as int)),
                residue < pow256((8 - i) as nat),
                pow256(8) == 0x1_0000_0000_0000_0000,
            decreases i,
        {
            i = i - 1;
            proof {
                assert(front.skip(i as int).drop_first() =~= front.skip(i + 1));
                lemma_value_bound(front.skip(i as int));
                lemma_pow256_monotonic((8 - i) as nat, 8);
            }
            residue = 256 * residue + bytes[i] as u64;
        }
        proof {
            assert(front.skip(0) =~= front);
            assert((residue as i64) == (if residue < 0x8000_0000_0000_0000 {
                residue as int
            } else {
                residue - 0x1_0000_0000_0000_0000
            })) by (bit_vector);
        }
        Ok(AleoAmount(residue as i64))
    }
}

} // verus!
