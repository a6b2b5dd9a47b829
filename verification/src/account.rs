//! Accounts: addresses, and the keys that act for them.

use vstd::prelude::*;

use crate::bytes::{append, same_bytes, zeros};
use crate::element::{read_front, AccountViewKey, GroupElement, RecordViewKey, Scalar};
use crate::error::RecordError;
use crate::schemes;
use crate::schemes::{generator_power, group_sum, is_public_key, public_key_of};
use crate::testnet2::account_scheme;

verus! {

/// The address of an account: an element of the prime-order subgroup of the curve.
#[derive(Clone, Copy, Debug, PartialEq, Eq)]
pub struct Address {
    element: GroupElement,
}

/// The number of bytes that an address takes.
pub const ADDRESS_SIZE_IN_BYTES: usize = 32;

/// `bytes` are the encoding of an address.
pub open spec fn is_address(bytes: Seq<u8>) -> bool {
    bytes.len() == ADDRESS_SIZE_IN_BYTES && is_public_key(bytes)
}

/// What reading an address off the front of `bytes` comes to.
pub open spec fn address_read(bytes: Seq<u8>) -> Result<Seq<u8>, RecordError> {
    read_front(bytes, 32, is_public_key(bytes.take(32)), RecordError::InvalidAddress)
}

/// An address is read as the first 32 bytes if they are the x-coordinate of a group element. Other
/// bytes are refused, and so are fewer.
pub proof fn law_addresses_are_read(bytes: Seq<u8>)
    ensures
        address_read(bytes) == if bytes.len() < 32 {
            Err::<Seq<u8>, RecordError>(RecordError::UnexpectedEof)
        } else if is_public_key(bytes.take(32)) {
            Ok(bytes.take(32))
        } else {
            Err(RecordError::InvalidAddress)
        },
        is_address(bytes) <==> bytes.len() == 32 && is_public_key(bytes),
{
}

impl View for Address {
    type V = Seq<u8>;

    /// The encoding of the address: its x-coordinate.
    closed spec fn view(&self) -> Seq<u8> {
        self.element@
    }
}

impl Address {
    #[verifier::type_invariant]
    pub open spec fn is_valid(self) -> bool {
        is_address(self@)
    }

    /// Returns the address of the account with the given compute key.
    pub fn from_compute_key(compute_key: &ComputeKey) -> (address: Address)
        ensures
            address@ == compute_key@.address(),
            address@ == group_sum(
                group_sum(compute_key@.pk_sig, compute_key@.pr_sig),
                generator_power(compute_key@.sk_prf),
            ),
    {
        let sk_prf: [u8; 32] = compute_key.sk_prf.encoding();
        let pk_prf: [u8; 32] = schemes::raise_generator(account_scheme(), &sk_prf);
        let pk_sig: [u8; 32] = compute_key.pk_sig.encoding();
        let pr_sig: [u8; 32] = compute_key.pr_sig.encoding();
        let bytes: [u8; 32] = schemes::add_elements(
            &schemes::add_elements(&pk_sig, &pr_sig),
            &pk_prf,
        );
        Address { element: GroupElement::from_encoding(bytes) }
    }

    /// Returns the address of the account with the given view key.
    pub fn from_view_key(view_key: &AccountViewKey) -> (address: Address)
        ensures
            address@ == public_key_of(view_key@),
    {
        let bytes: [u8; 32] = schemes::generate_public_key(account_scheme(), &view_key.encoding());
        Address { element: GroupElement::from_encoding(bytes) }
    }

    /// Reads an address off the front of `bytes`.
    pub fn read_le(bytes: &[u8]) -> (r: Result<Address, RecordError>)
        ensures
            match r {
                Ok(address) => address_read(bytes@) == Ok::<Seq<u8>, RecordError>(address@),
                Err(e) => address_read(bytes@) == Err::<Seq<u8>, RecordError>(e),
            },
    {
        if bytes.len() < 32 {
            return Err(RecordError::UnexpectedEof);
        }
        match schemes::read_public_key(bytes) {
            Ok(bytes) => Ok(Address { element: GroupElement::from_encoding(bytes) }),
            Err(_) => Err(RecordError::InvalidAddress),
        }
    }

    /// Appends the encoding of the address to `out`.
    pub fn write_le(&self, out: &mut Vec<u8>)
        ensures
            final(out)@ == old(out)@ + self@,
            is_address(self@),
    {
        append(out, &self.element.encoding());
    }

    /// Returns the encoding of the address.
    pub fn encoding(&self) -> (bytes: [u8; 32])
        ensures
            bytes@ == self@,
            is_address(bytes@),
    {
        self.element.encoding()
    }

    /// Returns `true` if the two addresses are the same.
    pub fn same(&self, other: &Address) -> (same: bool)
        ensures
            same == (self@ == other@),
    {
        same_bytes(&self.element.encoding(), &other.element.encoding())
    }
}

impl Default for Address {
    /// Returns the neutral element as an address.
    fn default() -> (address: Address)
        ensures
            address@ == zeros(32),
    {
        let bytes: [u8; 32] = schemes::default_public_key();
        Address { element: GroupElement::from_encoding(bytes) }
    }
}

/// The key of an account that computes the serial numbers of its records.
///
/// The address of the account is the sum of the public part `pk_sig` of its signing key, the public
/// part `pr_sig` of its signing randomizer, and the generator raised to `sk_prf`.
#[derive(Clone, Copy, Debug, PartialEq, Eq)]
pub struct ComputeKey {
    pk_sig: GroupElement,
    pr_sig: GroupElement,
    sk_prf: Scalar,
}

/// The parts of a compute key, by their encodings.
pub struct ComputeKeyView {
    pub pk_sig: Seq<u8>,
    pub pr_sig: Seq<u8>,
    pub sk_prf: Seq<u8>,
}

impl ComputeKeyView {
    /// The address of the account that the key belongs to.
    pub open spec fn address(self) -> Seq<u8> {
        group_sum(group_sum(self.pk_sig, self.pr_sig), generator_power(self.sk_prf))
    }
}

/// The address of an account is the sum of the two public parts of its key and the generator raised
/// to the secret part.
pub proof fn law_address_is_the_sum_of_the_key(key: ComputeKeyView)
    ensures
        key.address() == group_sum(
            group_sum(key.pk_sig, key.pr_sig),
            generator_power(key.sk_prf),
        ),
{
}

impl View for ComputeKey {
    type V = ComputeKeyView;

    closed spec fn view(&self) -> ComputeKeyView {
        ComputeKeyView { pk_sig: self.pk_sig@, pr_sig: self.pr_sig@, sk_prf: self.sk_prf@ }
    }
}

impl ComputeKey {
    /// Returns the compute key of the given parts.
    pub fn from_parts(
        pk_sig: GroupElement,
        pr_sig: GroupElement,
        sk_prf: Scalar,
    ) -> (key: ComputeKey)
        ensures
            key@ == (ComputeKeyView { pk_sig: pk_sig@, pr_sig: pr_sig@, sk_prf: sk_prf@ }),
    {
        ComputeKey { pk_sig, pr_sig, sk_prf }
    }

    /// Returns the part of the key that seeds serial numbers.
    pub fn sk_prf(&self) -> (sk_prf: &Scalar)
        ensures
            sk_prf@ == self@.sk_prf,
    {
        &self.sk_prf
    }
}

/// A key that opens record ciphertexts.
#[derive(Clone, Copy, Debug, PartialEq, Eq)]
pub enum DecryptionKey {
    /// The view key of the account that owns the record.
    AccountViewKey(AccountViewKey),
    /// The view key of the record itself.
    RecordViewKey(RecordViewKey),
}

/// A decryption key, by its encoding.
pub enum DecryptionKeyView {
    /// The view key of an account.
    AccountViewKey(Seq<u8>),
    /// The view key of a record.
    RecordViewKey(Seq<u8>),
}

impl View for DecryptionKey {
    type V = DecryptionKeyView;

    open spec fn view(&self) -> DecryptionKeyView {
        match self {
            DecryptionKey::AccountViewKey(key) => DecryptionKeyView::AccountViewKey(key@),
            DecryptionKey::RecordViewKey(key) => DecryptionKeyView::RecordViewKey(key@),
        }
    }
}

/// A decryption key is viewed as what it is the key of.
pub proof fn law_decryption_keys_are_viewed(
    account_view_key: AccountViewKey,
    record_view_key: RecordViewKey,
)
    ensures
        DecryptionKey::AccountViewKey(account_view_key)@ == DecryptionKeyView::AccountViewKey(
            account_view_key@,
        ),
        DecryptionKey::RecordViewKey(record_view_key)@ == DecryptionKeyView::RecordViewKey(
            record_view_key@,
        ),
{
}

} // verus!
