//! Field and group elements: the material that keys, commitments and identifiers are made of.

use vstd::prelude::*;

use crate::bytes::{
    append, le_value, lemma_value_is_injective, lemma_value_of_small, same_bytes, zeros,
};
use crate::error::RecordError;
use crate::schemes;
use crate::schemes::{
    base_modulus, is_base_element, is_program_element, is_public_key, is_scalar, program_modulus,
    scalar_modulus,
};

verus! {

/// An element of the base field of the curve.
#[derive(Clone, Copy, Debug, PartialEq, Eq)]
pub struct FieldElement {
    bytes: [u8; 32],
}

/// The randomizer of a record ciphertext.
pub type RecordRandomizer = FieldElement;

/// The key that a record is encrypted under.
pub type RecordViewKey = FieldElement;

/// A commitment to a record view key.
pub type RecordViewKeyCommitment = FieldElement;

/// A commitment to a record.
pub type Commitment = FieldElement;

/// The serial number of a record.
pub type SerialNumber = FieldElement;

/// An optional value as an optional view.
pub open spec fn viewed<T: View>(value: Option<T>) -> Option<T::V> {
    match value {
        Some(value) => Some(value@),
        None => None,
    }
}

/// What reading a value of `size` bytes off the front of `bytes` comes to: the first `size` bytes
/// if they are `valid`, and an error otherwise.
pub open spec fn read_front(
    bytes: Seq<u8>,
    size: nat,
    valid: bool,
    invalid: RecordError,
) -> Result<Seq<u8>, RecordError> {
    if bytes.len() < size {
        Err(RecordError::UnexpectedEof)
    } else if valid {
        Ok(bytes.take(size as int))
    } else {
        Err(invalid)
    }
}

/// What reading a field element off the front of `bytes` comes to.
pub open spec fn field_element_read(bytes: Seq<u8>) -> Result<Seq<u8>, RecordError> {
    read_front(bytes, 32, is_base_element(bytes.take(32)), RecordError::InvalidFieldElement)
}

/// An optional value is viewed as what it holds.
pub proof fn law_optional_values_are_viewed<T: View>(value: T)
    ensures
        viewed(Some(value)) == Some(value@),
        viewed(None::<T>) is None,
{
}

/// A field element is read as the first 32 bytes if they are below the modulus as an integer. Other
/// bytes are refused, and so are fewer.
pub proof fn law_field_elements_are_read(bytes: Seq<u8>)
    ensures
        field_element_read(bytes) == if bytes.len() < 32 {
            Err::<Seq<u8>, RecordError>(RecordError::UnexpectedEof)
        } else if le_value(bytes.take(32)) < base_modulus() {
            Ok(bytes.take(32))
        } else {
            Err(RecordError::InvalidFieldElement)
        },
{
}

impl View for FieldElement {
    type V = Seq<u8>;

    /// The canonical encoding of the element.
    closed spec fn view(&self) -> Seq<u8> {
        self.bytes@
    }
}

impl FieldElement {
    #[verifier::type_invariant]
    pub open spec fn is_valid(self) -> bool {
        is_base_element(self@)
    }

    /// Returns the element with the given canonical encoding.
    pub(crate) fn from_encoding(bytes: [u8; 32]) -> (element: FieldElement)
        requires
            is_base_element(bytes@),
        ensures
            element@ == bytes@,
    {
        FieldElement { bytes }
    }

    /// Reads an element off the front of `bytes`.
    pub fn read_le(bytes: &[u8]) -> (r: Result<FieldElement, RecordError>)
        ensures
            match r {
                Ok(element) => field_element_read(bytes@) == Ok::<Seq<u8>, RecordError>(element@),
                Err(e) => field_element_read(bytes@) == Err::<Seq<u8>, RecordError>(e),
            },
    {
        if bytes.len() < 32 {
            return Err(RecordError::UnexpectedEof);
        }
        match schemes::read_base_element(bytes) {
            Ok(bytes) => Ok(FieldElement { bytes }),
            Err(_) => Err(RecordError::InvalidFieldElement),
        }
    }

    /// Appends the encoding of the element to `out`.
    pub fn write_le(&self, out: &mut Vec<u8>)
        ensures
            final(out)@ == old(out)@ + self@,
            self@.len() == 32,
    {
        append(out, &self.bytes);
    }

    /// Returns the encoding of the element.
    pub fn encoding(&self) -> (bytes: [u8; 32])
        ensures
            bytes@ == self@,
            is_base_element(bytes@),
    {
        proof {
            use_type_invariant(self);
        }
        self.bytes
    }

    /// Returns `true` if the two elements are the same.
    pub fn same(&self, other: &FieldElement) -> (same: bool)
        ensures
            same == (self@ == other@),
    {
        same_bytes(&self.bytes, &other.bytes)
    }
}

impl Default for FieldElement {
    /// Returns the element zero.
    fn default() -> (element: FieldElement)
        ensures
            element@ == zeros(32),
    {
        let bytes: [u8; 32] = [0u8; 32];
        proof {
            lemma_value_of_small(0, 32);
            assert(bytes@ =~= zeros(32));
        }
        FieldElement { bytes }
    }
}

/// A scalar: an exponent for the elements of the prime-order subgroup of the curve.
#[derive(Clone, Copy, Debug, PartialEq, Eq)]
pub struct Scalar {
    bytes: [u8; 32],
}

/// The key of an account that opens the records which the account owns.
pub type AccountViewKey = Scalar;

/// What reading a scalar off the front of `bytes` comes to.
pub open spec fn scalar_read(bytes: Seq<u8>) -> Result<Seq<u8>, RecordError> {
    read_front(bytes, 32, is_scalar(bytes.take(32)), RecordError::InvalidScalar)
}

/// A scalar is read as the first 32 bytes if they are below the modulus as an integer. Other bytes
/// are refused, and so are fewer.
pub proof fn law_scalars_are_read(bytes: Seq<u8>)
    ensures
        scalar_read(bytes) == if bytes.len() < 32 {
            Err::<Seq<u8>, RecordError>(RecordError::UnexpectedEof)
        } else if le_value(bytes.take(32)) < scalar_modulus() {
            Ok(bytes.take(32))
        } else {
            Err(RecordError::InvalidScalar)
        },
{
}

impl View for Scalar {
    type V = Seq<u8>;

    /// The canonical encoding of the scalar.
    closed spec fn view(&self) -> Seq<u8> {
        self.bytes@
    }
}

impl Scalar {
    #[verifier::type_invariant]
    pub open spec fn is_valid(self) -> bool {
        is_scalar(self@)
    }

    /// Reads a scalar off the front of `bytes`.
    pub fn read_le(bytes: &[u8]) -> (r: Result<Scalar, RecordError>)
        ensures
            match r {
                Ok(scalar) => scalar_read(bytes@) == Ok::<Seq<u8>, RecordError>(scalar@),
                Err(e) => scalar_read(bytes@) == Err::<Seq<u8>, RecordError>(e),
            },
    {
        if bytes.len() < 32 {
            return Err(RecordError::UnexpectedEof);
        }
        match schemes::read_scalar(bytes) {
            Ok(bytes) => Ok(Scalar { bytes }),
            Err(_) => Err(RecordError::InvalidScalar),
        }
    }

    /// Returns the encoding of the scalar.
    pub fn encoding(&self) -> (bytes: [u8; 32])
        ensures
            bytes@ == self@,
            is_scalar(bytes@),
    {
        proof {
            use_type_invariant(self);
        }
        self.bytes
    }

    /// Returns the element of the base field that is the same integer.
    ///
    /// There is one for every scalar, as the scalar field is smaller than the base field.
    pub fn to_field_element(&self) -> (element: FieldElement)
        ensures
            element@ == self@,
    {
        proof {
            use_type_invariant(self);
        }
        let bits: Vec<bool> = schemes::scalar_bits(&self.bytes);
        match schemes::element_from_bits(&bits) {
            Some(bytes) => {
                proof {
                    lemma_value_is_injective(bytes@, self.bytes@);
                }
                FieldElement { bytes }
            },
            None => {
                assert(false);
                FieldElement::default()
            },
        }
    }
}

/// An element of the prime-order subgroup of the curve.
#[derive(Clone, Copy, Debug, PartialEq, Eq)]
pub struct GroupElement {
    bytes: [u8; 32],
}

/// What reading a group element off the front of `bytes` comes to.
pub open spec fn group_element_read(bytes: Seq<u8>) -> Result<Seq<u8>, RecordError> {
    read_front(bytes, 32, is_public_key(bytes.take(32)), RecordError::InvalidGroupElement)
}

/// A group element is read as the first 32 bytes if they are the x-coordinate of one. Other bytes
/// are refused, and so are fewer.
pub proof fn law_group_elements_are_read(bytes: Seq<u8>)
    ensures
        group_element_read(bytes) == if bytes.len() < 32 {
            Err::<Seq<u8>, RecordError>(RecordError::UnexpectedEof)
        } else if is_public_key(bytes.take(32)) {
            Ok(bytes.take(32))
        } else {
            Err(RecordError::InvalidGroupElement)
        },
{
}

impl View for GroupElement {
    type V = Seq<u8>;

    /// The encoding of the element: its x-coordinate.
    closed spec fn view(&self) -> Seq<u8> {
        self.bytes@
    }
}

impl GroupElement {
    #[verifier::type_invariant]
    pub open spec fn is_valid(self) -> bool {
        is_public_key(self@) && self@.len() == 32
    }

    /// Returns the element with the given encoding.
    pub(crate) fn from_encoding(bytes: [u8; 32]) -> (element: GroupElement)
        requires
            is_public_key(bytes@),
        ensures
            element@ == bytes@,
    {
        GroupElement { bytes }
    }

    /// Reads an element off the front of `bytes`.
    pub fn read_le(bytes: &[u8]) -> (r: Result<GroupElement, RecordError>)
        ensures
            match r {
                Ok(element) => group_element_read(bytes@) == Ok::<Seq<u8>, RecordError>(element@),
                Err(e) => group_element_read(bytes@) == Err::<Seq<u8>, RecordError>(e),
            },
    {
        if bytes.len() < 32 {
            return Err(RecordError::UnexpectedEof);
        }
        match schemes::read_public_key(bytes) {
            Ok(bytes) => Ok(GroupElement { bytes }),
            Err(_) => Err(RecordError::InvalidGroupElement),
        }
    }

    /// Returns the encoding of the element.
    pub fn encoding(&self) -> (bytes: [u8; 32])
        ensures
            bytes@ == self@,
            is_public_key(bytes@),
    {
        proof {
            use_type_invariant(self);
        }
        self.bytes
    }
}

/// The identifier of a program.
#[derive(Clone, Copy, Debug, PartialEq, Eq)]
pub struct ProgramId {
    bytes: [u8; 48],
}

/// What reading a program identifier off the front of `bytes` comes to.
pub open spec fn program_id_read(bytes: Seq<u8>) -> Result<Seq<u8>, RecordError> {
    read_front(bytes, 48, is_program_element(bytes.take(48)), RecordError::InvalidProgramId)
}

/// A program identifier is read as the first 48 bytes if they are below the modulus as an integer.
/// Other bytes are refused, and so are fewer.
pub proof fn law_program_ids_are_read(bytes: Seq<u8>)
    ensures
        program_id_read(bytes) == if bytes.len() < 48 {
            Err::<Seq<u8>, RecordError>(RecordError::UnexpectedEof)
        } else if le_value(bytes.take(48)) < program_modulus() {
            Ok(bytes.take(48))
        } else {
            Err(RecordError::InvalidProgramId)
        },
{
}

impl View for ProgramId {
    type V = Seq<u8>;

    /// The canonical encoding of the identifier.
    closed spec fn view(&self) -> Seq<u8> {
        self.bytes@
    }
}

impl ProgramId {
    #[verifier::type_invariant]
    pub open spec fn is_valid(self) -> bool {
        is_program_element(self@)
    }

    /// Reads an identifier off the front of `bytes`.
    pub fn read_le(bytes: &[u8]) -> (r: Result<ProgramId, RecordError>)
        ensures
            match r {
                Ok(id) => program_id_read(bytes@) == Ok::<Seq<u8>, RecordError>(id@),
                Err(e) => program_id_read(bytes@) == Err::<Seq<u8>, RecordError>(e),
            },
    {
        if bytes.len() < 48 {
            return Err(RecordError::UnexpectedEof);
        }
        match schemes::read_program_element(bytes) {
            Ok(bytes) => Ok(ProgramId { bytes }),
            Err(_) => Err(RecordError::InvalidProgramId),
        }
    }

    /// Appends the encoding of the identifier to `out`.
    pub fn write_le(&self, out: &mut Vec<u8>)
        ensures
            final(out)@ == old(out)@ + self@,
            self@.len() == 48,
    {
        append(out, &self.bytes);
    }

    /// Returns the encoding of the identifier.
    pub fn encoding(&self) -> (bytes: [u8; 48])
        ensures
            bytes@ == self@,
            is_program_element(bytes@),
    {
        proof {
            use_type_invariant(self);
        }
        self.bytes
    }
}

} // verus!
