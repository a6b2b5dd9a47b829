//! Record payloads.

use vstd::prelude::*;

use crate::bytes::append;
use crate::element::read_front;
use crate::error::RecordError;
use crate::testnet2::RECORD_PAYLOAD_SIZE_IN_BYTES;

verus! {

/// The data that a record carries for its program.
#[derive(Clone, Copy, Debug, PartialEq, Eq)]
pub struct Payload {
    bytes: [u8; 128],
}

/// What reading a payload off the front of `bytes` comes to.
pub open spec fn payload_read(bytes: Seq<u8>) -> Result<Seq<u8>, RecordError> {
    read_front(bytes, RECORD_PAYLOAD_SIZE_IN_BYTES as nat, true, RecordError::UnexpectedEof)
}

/// A payload is read as the first 128 bytes, and fewer are refused.
pub proof fn law_payloads_are_read(bytes: Seq<u8>)
    ensures
        payload_read(bytes) == if bytes.len() < 128 {
            Err::<Seq<u8>, RecordError>(RecordError::UnexpectedEof)
        } else {
            Ok(bytes.take(128))
        },
{
}

impl View for Payload {
    type V = Seq<u8>;

    /// The bytes of the payload.
    closed spec fn view(&self) -> Seq<u8> {
        self.bytes@
    }
}

impl Payload {
    #[verifier::type_invariant]
    pub open spec fn is_valid(self) -> bool {
        self@.len() == RECORD_PAYLOAD_SIZE_IN_BYTES
    }

    /// Reads a payload off the front of `bytes`.
    pub fn read_le(bytes: &[u8]) -> (r: Result<Payload, RecordError>)
        ensures
            match r {
                Ok(payload) => payload_read(bytes@) == Ok::<Seq<u8>, RecordError>(payload@),
                Err(e) => payload_read(bytes@) == Err::<Seq<u8>, RecordError>(e),
            },
    {
        if bytes.len() < RECORD_PAYLOAD_SIZE_IN_BYTES {
            return Err(RecordError::UnexpectedEof);
        }
        let mut front: [u8; 128] = [0u8; 128];
        let mut i: usize = 0;
        while i < 128
            invariant
                i <= 128,
                bytes@.len() >= 128,
                forall|j: int| 0 <= j < i ==> front@[j] == bytes@[j],
            decreases 128 - i,
        {
            front[i] = bytes[i];
            i = i + 1;
        }
        assert(front@ =~= bytes@.take(128));
        Ok(Payload { bytes: front })
    }

    /// Appends the bytes of the payload to `out`.
    pub fn write_le(&self, out: &mut Vec<u8>)
        ensures
            final(out)@ == old(out)@ + self@,
            self@.len() == RECORD_PAYLOAD_SIZE_IN_BYTES,
    {
        append(out, &self.bytes);
    }

    /// Returns the bytes of the payload.
    pub fn encoding(&self) -> (bytes: [u8; 128])
        ensures
            bytes@ == self@,
            bytes@.len() == RECORD_PAYLOAD_SIZE_IN_BYTES,
    {
        self.bytes
    }
}

} // verus!
