//! Byte and bit strings: little-endian integers, comparison and appending.

use vstd::prelude::*;

verus! {

/// The integer that `bytes` encode, least significant byte first.
pub open spec fn le_value(bytes: Seq<u8>) -> nat
    decreases bytes.len(),
{
    if bytes.len() == 0 {
        0
    } else {
        bytes[0] as nat + 256 * le_value(bytes.drop_first())
    }
}

/// The integer that `bits` encode, least significant bit first.
pub open spec fn bits_value(bits: Seq<bool>) -> nat
    decreases bits.len(),
{
    if bits.len() == 0 {
        0
    } else {
        (if bits[0] {
            1nat
        } else {
            0nat
        }) + 2 * bits_value(bits.drop_first())
    }
}

/// The low `len` base-256 digits of `value`, least significant byte first.
pub open spec fn le_bytes(value: nat, len: nat) -> Seq<u8>
    decreases len,
{
    if len == 0 {
        Seq::empty()
    } else {
        seq![(value % 256) as u8] + le_bytes(value / 256, (len - 1) as nat)
    }
}

/// `count` zero bytes.
pub open spec fn zeros(count: nat) -> Seq<u8> {
    Seq::new(count, |i: int| 0u8)
}

pub proof fn lemma_le_bytes_len(value: nat, len: nat)
    ensures
        le_bytes(value, len).len() == len,
    decreases len,
{
    if len > 0 {
        lemma_le_bytes_len(value / 256, (len - 1) as nat);
    }
}

/// Encoding the integer that a byte string stands for gives the byte string back.
pub proof fn lemma_bytes_of_value(bytes: Seq<u8>)
    ensures
        le_bytes(le_value(bytes), bytes.len()) == bytes,
    decreases bytes.len(),
{
    if bytes.len() > 0 {
        let rest = bytes.drop_first();
        lemma_bytes_of_value(rest);
        assert(le_value(bytes) % 256 == bytes[0]);
        assert(le_value(bytes) / 256 == le_value(rest));
        assert(seq![bytes[0]] + rest =~= bytes);
    } else {
        assert(le_bytes(le_value(bytes), 0) =~= bytes);
    }
}

/// 256 to the power of `len`: how many byte strings of length `len` there are.
pub open spec fn pow256(len: nat) -> nat
    decreases len,
{
    if len == 0 {
        1
    } else {
        256 * pow256((len - 1) as nat)
    }
}

pub proof fn lemma_pow256_monotonic(a: nat, b: nat)
    requires
        a <= b,
    ensures
        pow256(a) <= pow256(b),
    decreases b,
{
    if a < b {
        lemma_pow256_monotonic(a, (b - 1) as nat);
    }
}

/// A byte string of length `len` stands for an integer below 256 to the power of `len`.
pub proof fn lemma_value_bound(bytes: Seq<u8>)
    ensures
        le_value(bytes) < pow256(bytes.len()),
    decreases bytes.len(),
{
    if bytes.len() > 0 {
        lemma_value_bound(bytes.drop_first());
    }
}

/// An integer that fits into `len` bytes is what its encoding stands for.
pub proof fn lemma_value_of_bytes(value: nat, len: nat)
    requires
        value < pow256(len),
    ensures
        le_value(le_bytes(value, len)) == value,
    decreases len,
{
    if len > 0 {
        let shorter = (len - 1) as nat;
        lemma_value_of_bytes(value / 256, shorter);
        assert(le_bytes(value, len).drop_first() =~= le_bytes(value / 256, shorter));
    }
}

/// Two byte strings of one length that stand for one integer are the same.
pub proof fn lemma_value_is_injective(a: Seq<u8>, b: Seq<u8>)
    requires
        a.len() == b.len(),
        le_value(a) == le_value(b),
    ensures
        a == b,
{
    lemma_bytes_of_value(a);
    lemma_bytes_of_value(b);
}

/// A byte string that starts with `byte` and goes on with zeros stands for `byte`.
pub proof fn lemma_value_of_small(byte: u8, count: nat)
    ensures
        le_value(zeros(count)) == 0,
        le_value(seq![byte] + zeros(count)) == byte,
    decreases count,
{
    if count > 0 {
        lemma_value_of_small(byte, (count - 1) as nat);
        assert(zeros(count).drop_first() =~= zeros((count - 1) as nat));
    }
    assert((seq![byte] + zeros(count)).drop_first() =~= zeros(count));
}

/// A byte string of `count` zeros and a last `byte` stands for a multiple of a power of 256.
pub proof fn lemma_value_of_high(count: nat, byte: u8)
    ensures
        le_value(zeros(count) + seq![byte]) == byte * pow256(count),
    decreases count,
{
    let bytes = zeros(count) + seq![byte];
    if count > 0 {
        let shorter = (count - 1) as nat;
        lemma_value_of_high(shorter, byte);
        assert(bytes.drop_first() =~= zeros(shorter) + seq![byte]);
        assert(byte * pow256(count) == 256 * (byte * pow256(shorter))) by (nonlinear_arith)
            requires
                pow256(count) == 256 * pow256(shorter),
        ;
        assert(bytes[0] == 0);
    } else {
        assert(bytes.drop_first() =~= Seq::<u8>::empty());
        assert(le_value(Seq::<u8>::empty()) == 0);
        assert(bytes[0] == byte);
        assert(byte * pow256(0) == byte) by (nonlinear_arith)
            requires
                pow256(0) == 1,
        ;
    }
}

/// A byte string stands for the sum of its digits, each one weighted with a power of 256 by its
/// place.
pub proof fn law_value_is_positional(a: Seq<u8>, b: Seq<u8>)
    ensures
        le_value(a + b) == le_value(a) + pow256(a.len()) * le_value(b),
        le_value(Seq::empty()) == 0,
        forall|byte: u8| #[trigger] le_value(seq![byte]) == byte,
    decreases a.len(),
{
    assert forall|byte: u8| #[trigger] le_value(seq![byte]) == byte by {
        assert(seq![byte].drop_first() =~= Seq::<u8>::empty());
        assert(le_value(Seq::<u8>::empty()) == 0);
    }
    if a.len() == 0 {
        assert(a + b =~= b);
        assert(pow256(0) == 1);
    } else {
        let rest = a.drop_first();
        law_value_is_positional(rest, b);
        assert((a + b).drop_first() =~= rest + b);
        let power = pow256(rest.len());
        assert(256 * (power * le_value(b)) == (256 * power) * le_value(b)) by (nonlinear_arith);
    }
}

/// The weight of a place is 256 to its power.
pub proof fn law_weights_are_powers(a: nat, b: nat)
    ensures
        pow256(0) == 1,
        pow256(1) == 256,
        pow256(a + b) == pow256(a) * pow256(b),
    decreases a,
{
    assert(pow256(0) == 1);
    assert(pow256(1) == 256 * pow256(0));
    if a == 0 {
    } else {
        let shorter = (a - 1) as nat;
        law_weights_are_powers(shorter, b);
        assert(pow256(a + b) == 256 * pow256((a + b - 1) as nat));
        assert((a + b - 1) as nat == shorter + b);
        let (x, y) = (pow256(shorter), pow256(b));
        assert(256 * (x * y) == (256 * x) * y) by (nonlinear_arith);
    }
}

/// Zeros are zero.
pub proof fn law_zeros_are_zero(count: nat)
    ensures
        zeros(count).len() == count,
        forall|i: int| 0 <= i < count ==> #[trigger] zeros(count)[i] == 0u8,
        le_value(zeros(count)) == 0,
{
    lemma_value_of_small(0, count);
}

/// Appends `bytes` to `out`.
pub fn append(out: &mut Vec<u8>, bytes: &[u8])
    ensures
        final(out)@ == old(out)@ + bytes@,
{
    out.extend_from_slice(bytes);
    assert(out@ =~= old(out)@ + bytes@);
}

/// Returns `true` if the two byte strings are the same.
pub fn same_bytes(a: &[u8], b: &[u8]) -> (same: bool)
    ensures
        same == (a@ == b@),
{
    if a.len() != b.len() {
        return false;
    }
    let mut i: usize = 0;
    while i < a.len()
        invariant
            a@.len() == b@.len(),
            i <= a@.len(),
            forall|j: int| 0 <= j < i ==> a@[j] == b@[j],
        decreases a@.len() - i,
    {
        if a[i] != b[i] {
            return false;
        }
        i = i + 1;
    }
    assert(a@ =~= b@);
    true
}

} // verus!
