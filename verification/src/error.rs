//! What can go wrong with a record.

use vstd::prelude::*;

use crate::element::Commitment;

verus! {

/// An error of a record operation.
#[derive(Clone, Copy, Debug, PartialEq, Eq)]
pub enum RecordError {
    /// The input ended before the value did.
    UnexpectedEof,
    /// The bytes are not the canonical encoding of a field element.
    InvalidFieldElement,
    /// The bytes are not the canonical encoding of a scalar.
    InvalidScalar,
    /// The bytes are not the encoding of a group element.
    InvalidGroupElement,
    /// The bytes are not the canonical encoding of a program identifier.
    InvalidProgramId,
    /// The bytes are not the encoding of an address.
    InvalidAddress,
    /// A plaintext has neither three nor four parts.
    InvalidPlaintextSize,
    /// A plaintext of the given number of parts takes more bytes than a record may.
    RecordTooLarge(usize),
    /// The dummy flag of a plaintext does not agree with its contents.
    IncorrectDummyFlag,
    /// A record ciphertext takes more bytes than can be committed to.
    CiphertextTooLarge,
    /// The account view key cannot open any record with the randomizer of this one.
    InvalidRandomizer,
    /// The decryption key belongs to another record.
    IncorrectDecryptionKey,
    /// The record ciphertext is not an encryption under its view key.
    InvalidCiphertext,
    /// A byte that tells whether an optional value is present is neither zero nor one.
    InvalidFlag,
    /// The compute key does not belong to the owner of the record.
    IncorrectComputeKey,
    /// The first commitment was claimed for a record that has the second one.
    InvalidCommitment(Commitment, Commitment),
    /// The account encryption scheme failed.
    EncryptionFailed,
    /// The serial number function failed.
    EvaluationFailed,
}

} // verus!
