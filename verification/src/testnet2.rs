//! The parameters of the network that records live on: the second test network.

use vstd::prelude::*;

verus! {

/// The number of bytes in the payload of a record.
pub const RECORD_PAYLOAD_SIZE_IN_BYTES: usize = 128;

/// The number of windows of the record commitment scheme.
pub const COMMITMENT_NUM_WINDOWS: usize = 41;

/// The number of bits in a window of the record commitment scheme.
pub const COMMITMENT_WINDOW_SIZE: usize = 63;

/// The message that the account encryption and signature schemes are set up from.
pub open spec fn account_scheme_message() -> Seq<char> {
    "AleoAccountEncryptionAndSignatureScheme0"@
}

/// The message that the record commitment scheme is set up from.
pub open spec fn commitment_scheme_message() -> Seq<char> {
    "AleoCommitmentScheme0"@
}

/// Returns the message that the account encryption and signature schemes are set up from.
pub fn account_scheme() -> (message: &'static str)
    ensures
        message@ == account_scheme_message(),
        message@ == "AleoAccountEncryptionAndSignatureScheme0"@,
{
    "AleoAccountEncryptionAndSignatureScheme0"
}

/// Returns the message that the record commitment scheme is set up from.
pub fn commitment_scheme() -> (message: &'static str)
    ensures
        message@ == commitment_scheme_message(),
        message@ == "AleoCommitmentScheme0"@,
{
    "AleoCommitmentScheme0"
}

} // verus!
