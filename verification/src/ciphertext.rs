//! Record ciphertexts.

use vstd::arithmetic::div_mod::lemma_sub_mod_noop_right;
use vstd::prelude::*;
use vstd::slice::{slice_subrange, slice_to_vec};

use crate::account::{DecryptionKey, DecryptionKeyView};
use crate::bytes::{
    append, lemma_value_is_injective, lemma_value_of_high, lemma_value_of_small, le_value, pow256,
    same_bytes, zeros,
};
use crate::element::{
    viewed, Commitment, FieldElement, ProgramId, RecordRandomizer, RecordViewKey,
    RecordViewKeyCommitment,
};
use crate::error::RecordError;
use crate::plaintext::{joined, law_splitting_loses_nothing, parts_view, split, split_parts};
use crate::schemes;
use crate::schemes::{
    base_modulus, commitment_hash, decryption, element_at, encryption, is_base_element, is_endless,
    key_commitment, mask_at, overlooked_bit, probe_len, probe_mark, shared_key, unmasked_at,
    COMMITMENT_CAPACITY, ELEMENT_CAPACITY,
};
use crate::testnet2::{account_scheme, commitment_scheme};

verus! {

/// The encryption of a record, and the commitment to it.
#[derive(Debug, PartialEq, Eq)]
pub struct Ciphertext {
    commitment: Commitment,
    randomizer: RecordRandomizer,
    record_view_key_commitment: RecordViewKeyCommitment,
    record_bytes: Vec<u8>,
    program_id: Option<ProgramId>,
}

/// A record ciphertext, by the encodings of its parts.
pub struct CiphertextView {
    pub commitment: Seq<u8>,
    pub randomizer: Seq<u8>,
    pub record_view_key_commitment: Seq<u8>,
    pub record_bytes: Seq<u8>,
    pub program_id: Option<Seq<u8>>,
}

/// The bytes that the commitment to a record is the hash of.
pub open spec fn committed_bytes(
    randomizer: Seq<u8>,
    record_view_key_commitment: Seq<u8>,
    record_bytes: Seq<u8>,
    program_id: Option<Seq<u8>>,
) -> Seq<u8> {
    randomizer + record_view_key_commitment + record_bytes + match program_id {
        Some(program_id) => program_id,
        None => Seq::empty(),
    }
}

/// The ciphertext of the given parts.
pub open spec fn ciphertext_of(
    randomizer: Seq<u8>,
    record_view_key_commitment: Seq<u8>,
    record_bytes: Seq<u8>,
    program_id: Option<Seq<u8>>,
) -> CiphertextView {
    CiphertextView {
        commitment: commitment_hash(
            committed_bytes(randomizer, record_view_key_commitment, record_bytes, program_id),
        ),
        randomizer,
        record_view_key_commitment,
        record_bytes,
        program_id,
    }
}

/// The view key of the record with the given ciphertext, as far as the decryption key tells it.
pub open spec fn view_key_of(key: DecryptionKeyView, ciphertext: CiphertextView) -> Option<Seq<u8>> {
    match key {
        DecryptionKeyView::AccountViewKey(key) => shared_key(key, ciphertext.randomizer),
        DecryptionKeyView::RecordViewKey(key) => Some(key),
    }
}

/// The decryption key leads to the view key that the ciphertext is committed to.
pub open spec fn is_committed(key: DecryptionKeyView, ciphertext: CiphertextView) -> bool {
    view_key_of(key, ciphertext) matches Some(view_key) && key_commitment(view_key)
        == ciphertext.record_view_key_commitment
}

/// The decryption of the ciphertext with the given key comes to an end. It does unless the key is
/// the right one and the ciphertext is shorter than one element or carries no mark of its end.
pub open spec fn is_decidable(key: DecryptionKeyView, ciphertext: CiphertextView) -> bool {
    is_committed(key, ciphertext) ==> ciphertext.record_bytes.len() >= 32 && !is_endless(
        view_key_of(key, ciphertext)->0,
        ciphertext.record_bytes,
    )
}

/// What opening the ciphertext with the given key comes to: the parts of the plaintext, the view
/// key of the record, and its program.
pub open spec fn opened(key: DecryptionKeyView, ciphertext: CiphertextView) -> Result<
    (Seq<Seq<u8>>, Seq<u8>, Option<Seq<u8>>),
    RecordError,
> {
    match view_key_of(key, ciphertext) {
        None => Err(RecordError::InvalidRandomizer),
        Some(view_key) => if key_commitment(view_key) != ciphertext.record_view_key_commitment {
            Err(RecordError::IncorrectDecryptionKey)
        } else {
            match decryption(view_key, ciphertext.record_bytes) {
                None => Err(RecordError::InvalidCiphertext),
                Some(plaintext) => Ok((split(plaintext), view_key, ciphertext.program_id)),
            }
        },
    }
}

/// What is committed to is the randomizer, then the commitment to the view key, then all the bytes
/// of the encrypted record, and then the program if there is one.
pub proof fn law_all_parts_are_committed_to(
    randomizer: Seq<u8>,
    record_view_key_commitment: Seq<u8>,
    record_bytes: Seq<u8>,
    program_id: Option<Seq<u8>>,
)
    requires
        randomizer.len() == 32,
        record_view_key_commitment.len() == 32,
    ensures
        ({
            let committed = committed_bytes(
                randomizer,
                record_view_key_commitment,
                record_bytes,
                program_id,
            );
            let end = 64 + record_bytes.len();
            &&& committed.take(32) == randomizer
            &&& committed.subrange(32, 64) == record_view_key_commitment
            &&& committed.subrange(64, end as int) == record_bytes
            &&& program_id == None::<Seq<u8>> ==> committed.len() == end
            &&& program_id is Some ==> committed.skip(end as int) == program_id->0
        }),
{
    let committed = committed_bytes(
        randomizer,
        record_view_key_commitment,
        record_bytes,
        program_id,
    );
    let end = 64 + record_bytes.len();
    assert(committed.take(32) =~= randomizer);
    assert(committed.subrange(32, 64) =~= record_view_key_commitment);
    assert(committed.subrange(64, end as int) =~= record_bytes);
    if let Some(program_id) = program_id {
        assert(committed.skip(end as int) =~= program_id);
    }
}

/// The bytes that are committed to determine the ciphertext, among those of records with a program
/// and among those of records without one.
pub proof fn law_committed_bytes_determine_the_ciphertext(a: CiphertextView, b: CiphertextView)
    requires
        a.randomizer.len() == 32,
        b.randomizer.len() == 32,
        a.record_view_key_commitment.len() == 32,
        b.record_view_key_commitment.len() == 32,
        a.program_id is Some <==> b.program_id is Some,
        a.program_id is Some ==> a.program_id->0.len() == b.program_id->0.len(),
        committed_bytes(
            a.randomizer,
            a.record_view_key_commitment,
            a.record_bytes,
            a.program_id,
        ) == committed_bytes(
            b.randomizer,
            b.record_view_key_commitment,
            b.record_bytes,
            b.program_id,
        ),
    ensures
        a.randomizer == b.randomizer,
        a.record_view_key_commitment == b.record_view_key_commitment,
        a.record_bytes == b.record_bytes,
        a.program_id == b.program_id,
{
    law_all_parts_are_committed_to(
        a.randomizer,
        a.record_view_key_commitment,
        a.record_bytes,
        a.program_id,
    );
    law_all_parts_are_committed_to(
        b.randomizer,
        b.record_view_key_commitment,
        b.record_bytes,
        b.program_id,
    );
}

/// A ciphertext holds the parts that it is made of, and its commitment is the hash of them all, one
/// after the other.
pub proof fn law_ciphertext_commits_to_its_parts(
    randomizer: Seq<u8>,
    record_view_key_commitment: Seq<u8>,
    record_bytes: Seq<u8>,
    program_id: Option<Seq<u8>>,
)
    ensures
        ({
            let ciphertext = ciphertext_of(
                randomizer,
                record_view_key_commitment,
                record_bytes,
                program_id,
            );
            &&& ciphertext.randomizer == randomizer
            &&& ciphertext.record_view_key_commitment == record_view_key_commitment
            &&& ciphertext.record_bytes == record_bytes
            &&& ciphertext.program_id == program_id
            &&& program_id == None::<Seq<u8>> ==> ciphertext.commitment == commitment_hash(
                randomizer + record_view_key_commitment + record_bytes,
            )
            &&& program_id is Some ==> ciphertext.commitment == commitment_hash(
                randomizer + record_view_key_commitment + record_bytes + program_id->0,
            )
        }),
{
    if program_id is None {
        assert(committed_bytes(randomizer, record_view_key_commitment, record_bytes, program_id)
            =~= randomizer + record_view_key_commitment + record_bytes);
    }
}

/// The view key of an account leads to the key that it shares with the drawer of the randomizer, if
/// there is one; the view key of a record leads to itself.
pub proof fn law_decryption_keys_lead_to_view_keys(key: Seq<u8>, ciphertext: CiphertextView)
    ensures
        view_key_of(DecryptionKeyView::AccountViewKey(key), ciphertext) == shared_key(
            key,
            ciphertext.randomizer,
        ),
        view_key_of(DecryptionKeyView::RecordViewKey(key), ciphertext) == Some(key),
{
}

/// A decryption comes to no end if and only if the key leads to the view key that the ciphertext is
/// committed to, and the ciphertext is shorter than an element or has no mark of its end.
pub proof fn law_decidable_unless_without_an_end(key: DecryptionKeyView, ciphertext: CiphertextView)
    ensures
        !is_decidable(key, ciphertext) <==> {
            &&& view_key_of(key, ciphertext) is Some
            &&& key_commitment(view_key_of(key, ciphertext)->0)
                == ciphertext.record_view_key_commitment
            &&& ciphertext.record_bytes.len() < 32 || is_endless(
                view_key_of(key, ciphertext)->0,
                ciphertext.record_bytes,
            )
        },
        is_committed(key, ciphertext) <==> {
            &&& view_key_of(key, ciphertext) is Some
            &&& key_commitment(view_key_of(key, ciphertext)->0)
                == ciphertext.record_view_key_commitment
        },
{
}

/// A ciphertext is opened by a key that leads to the view key which it is committed to, if it
/// decrypts under that: to parts that join to the decryption, to that view key, and to its program.
pub proof fn law_ciphertext_opens_to_its_decryption(
    key: DecryptionKeyView,
    ciphertext: CiphertextView,
)
    ensures
        ({
            let view_key = view_key_of(key, ciphertext);
            let plaintext = decryption(view_key->0, ciphertext.record_bytes);
            match opened(key, ciphertext) {
                Ok((parts, opened_key, program_id)) => {
                    &&& view_key == Some(opened_key)
                    &&& key_commitment(opened_key) == ciphertext.record_view_key_commitment
                    &&& plaintext == Some(joined(parts))
                    &&& parts == split(joined(parts))
                    &&& program_id == ciphertext.program_id
                },
                Err(e) => e == if view_key is None {
                    RecordError::InvalidRandomizer
                } else if key_commitment(view_key->0) != ciphertext.record_view_key_commitment {
                    RecordError::IncorrectDecryptionKey
                } else {
                    RecordError::InvalidCiphertext
                } && (e == RecordError::InvalidCiphertext ==> plaintext is None),
            }
        }),
{
    if opened(key, ciphertext) is Ok {
        law_splitting_loses_nothing(
            decryption(view_key_of(key, ciphertext)->0, ciphertext.record_bytes)->0,
        );
    }
}

impl View for Ciphertext {
    type V = CiphertextView;

    closed spec fn view(&self) -> CiphertextView {
        CiphertextView {
            commitment: self.commitment@,
            randomizer: self.randomizer@,
            record_view_key_commitment: self.record_view_key_commitment@,
            record_bytes: self.record_bytes@,
            program_id: viewed(self.program_id),
        }
    }
}

impl Clone for Ciphertext {
    fn clone(&self) -> (same: Ciphertext)
        ensures
            same@ == self@,
    {
        proof {
            use_type_invariant(self);
        }
        Ciphertext {
            commitment: self.commitment,
            randomizer: self.randomizer,
            record_view_key_commitment: self.record_view_key_commitment,
            record_bytes: slice_to_vec(&self.record_bytes),
            program_id: self.program_id,
        }
    }
}

impl Ciphertext {
    #[verifier::type_invariant]
    closed spec fn is_valid(self) -> bool {
        let committed = committed_bytes(
            self.randomizer@,
            self.record_view_key_commitment@,
            self.record_bytes@,
            viewed(self.program_id),
        );
        &&& committed.len() <= COMMITMENT_CAPACITY
        &&& self.commitment@ == commitment_hash(committed)
    }

    /// Returns the ciphertext of the given parts.
    pub fn from(
        randomizer: RecordRandomizer,
        record_view_key_commitment: RecordViewKeyCommitment,
        record_bytes: Vec<u8>,
        program_id: Option<ProgramId>,
    ) -> (r: Result<Ciphertext, RecordError>)
        ensures
            ({
                let committed = committed_bytes(
                    randomizer@,
                    record_view_key_commitment@,
                    record_bytes@,
                    viewed(program_id),
                );
                match r {
                    Ok(ciphertext) => committed.len() <= 322 && ciphertext@ == ciphertext_of(
                        randomizer@,
                        record_view_key_commitment@,
                        record_bytes@,
                        viewed(program_id),
                    ),
                    Err(e) => committed.len() > 322 && e == RecordError::CiphertextTooLarge,
                }
            }),
    {
        if record_bytes.len() > COMMITMENT_CAPACITY {
            return Err(RecordError::CiphertextTooLarge);
        }
        let mut committed: Vec<u8> = Vec::new();
        randomizer.write_le(&mut committed);
        record_view_key_commitment.write_le(&mut committed);
        append(&mut committed, &record_bytes);
        if let Some(program_id) = &program_id {
            program_id.write_le(&mut committed);
        }
        assert(committed@ =~= committed_bytes(
            randomizer@,
            record_view_key_commitment@,
            record_bytes@,
            viewed(program_id),
        ));
        match schemes::hash(commitment_scheme(), &committed) {
            Ok(digest) => Ok(
                Ciphertext {
                    commitment: FieldElement::from_encoding(digest),
                    randomizer,
                    record_view_key_commitment,
                    record_bytes,
                    program_id,
                },
            ),
            Err(_) => Err(RecordError::CiphertextTooLarge),
        }
    }

    /// Returns the commitment to the record.
    pub fn commitment(&self) -> (commitment: Commitment)
        ensures
            commitment@ == self@.commitment,
    {
        self.commitment
    }

    /// Returns the randomizer of the ciphertext.
    pub fn randomizer(&self) -> (randomizer: RecordRandomizer)
        ensures
            randomizer@ == self@.randomizer,
    {
        self.randomizer
    }

    /// Returns the program of the record.
    pub fn program_id(&self) -> (program_id: Option<ProgramId>)
        ensures
            viewed(program_id) == self@.program_id,
    {
        self.program_id
    }

    /// Returns the view key of the record, as far as the decryption key tells it.
    fn view_key(&self, decryption_key: &DecryptionKey) -> (view_key: Option<RecordViewKey>)
        ensures
            viewed(view_key) == view_key_of(decryption_key@, self@),
    {
        match decryption_key {
            DecryptionKey::AccountViewKey(key) => {
                let shared: Option<[u8; 32]> = schemes::generate_symmetric_key(
                    account_scheme(),
                    &key.encoding(),
                    &self.randomizer.encoding(),
                );
                match shared {
                    Some(bytes) => Some(FieldElement::from_encoding(bytes)),
                    None => None,
                }
            },
            DecryptionKey::RecordViewKey(key) => Some(*key),
        }
    }

    /// Ensures that the view key which the ciphertext is committed to has the given commitment.
    pub fn ensure_view_key(&self, commitment: &RecordViewKeyCommitment) -> (r: Result<
        (),
        RecordError,
    >)
        ensures
            match r {
                Ok(()) => commitment@ == self@.record_view_key_commitment,
                Err(e) => {
                    &&& commitment@ != self@.record_view_key_commitment
                    &&& e == RecordError::IncorrectDecryptionKey
                },
            },
    {
        if commitment.same(&self.record_view_key_commitment) {
            Ok(())
        } else {
            Err(RecordError::IncorrectDecryptionKey)
        }
    }

    /// Returns `true` if the decryption of the ciphertext with the given key comes to an end.
    pub fn decides(&self, decryption_key: &DecryptionKey) -> (decidable: bool)
        ensures
            decidable == is_decidable(decryption_key@, self@),
    {
        proof {
            use_type_invariant(self);
        }
        match self.view_key(decryption_key) {
            None => true,
            Some(view_key) => match self.ensure_view_key(&commitment_to(&view_key)) {
                Ok(()) => self.record_bytes.len() >= 32 && !carries_no_end(
                    &view_key.encoding(),
                    &self.record_bytes,
                ),
                Err(_) => true,
            },
        }
    }

    /// Opens the ciphertext with the given key.
    ///
    /// Returns the parts of the plaintext, the view key of the record, and its program.
    pub fn to_plaintext(&self, decryption_key: &DecryptionKey) -> (r: Result<
        (Vec<Vec<u8>>, RecordViewKey, Option<ProgramId>),
        RecordError,
    >)
        requires
            is_decidable(decryption_key@, self@),
        ensures
            match r {
                Ok((parts, view_key, program_id)) => opened(decryption_key@, self@) == Ok::<
                    _,
                    RecordError,
                >((parts_view(parts@), view_key@, viewed(program_id))),
                Err(e) => opened(decryption_key@, self@) == Err::<
                    (Seq<Seq<u8>>, Seq<u8>, Option<Seq<u8>>),
                    RecordError,
                >(e),
            },
    {
        let view_key: RecordViewKey = match self.view_key(decryption_key) {
            Some(view_key) => view_key,
            None => return Err(RecordError::InvalidRandomizer),
        };
        match self.ensure_view_key(&commitment_to(&view_key)) {
            Ok(()) => {},
            Err(e) => return Err(e),
        }
        match schemes::decrypt(account_scheme(), &view_key.encoding(), &self.record_bytes) {
            Ok(plaintext) => Ok((split_parts(&plaintext), view_key, self.program_id)),
            Err(_) => Err(RecordError::InvalidCiphertext),
        }
    }
}

/// Returns the commitment to the given view key.
pub(crate) fn commitment_to(view_key: &RecordViewKey) -> (commitment: RecordViewKeyCommitment)
    ensures
        commitment@ == key_commitment(view_key@),
{
    let commitment: [u8; 32] = schemes::generate_symmetric_key_commitment(
        account_scheme(),
        &view_key.encoding(),
    );
    FieldElement::from_encoding(commitment)
}

/// Returns `true` if the ciphertext carries no mark of its end under the given key.
fn carries_no_end(key: &[u8; 32], ciphertext: &[u8]) -> (endless: bool)
    requires
        is_base_element(key@),
        ciphertext@.len() <= COMMITMENT_CAPACITY,
    ensures
        endless == is_endless(key@, ciphertext@),
{
    let count: usize = ciphertext.len() / 32;
    if count == 0 {
        return false;
    }
    let zero: [u8; 32] = [0u8; 32];
    let mut high: [u8; 32] = [0u8; 32];
    high[31] = 16;
    let mut mark: [u8; 32] = [0u8; 32];
    mark[0] = if count % 2 == 1 { 1 } else { 16 };
    proof {
        lemma_value_of_small(mark@[0], 31);
        assert(mark@ =~= seq![mark@[0]] + zeros(31));
        lemma_value_of_small(0, 32);
        assert(zero@ =~= zeros(32));
        lemma_value_of_high(31, 16);
        assert(high@ =~= zeros(31) + seq![16u8]);
        assert(16 * pow256(31) == overlooked_bit()) by {
            reveal_with_fuel(pow256, 32);
        }
    }

    let probe_size: usize = (ELEMENT_CAPACITY * (count - 1) + 7) / 8;
    let mut probe: Vec<u8> = Vec::new();
    while probe.len() < probe_size
        invariant
            probe@.len() <= probe_size,
            probe@ == zeros(probe@.len()),
        decreases probe_size - probe@.len(),
    {
        probe.push(0);
        assert(probe@ =~= zeros(probe@.len()));
    }
    let masked: Vec<u8> = match schemes::encrypt(account_scheme(), key, &probe) {
        Ok(masked) => masked,
        Err(_) => {
            assert(false);
            return false;
        },
    };

    let mut i: usize = 0;
    while i < count
        invariant
            i <= count,
            count == ciphertext@.len() / 32,
            0 < count <= COMMITMENT_CAPACITY,
            masked@ == encryption(key@, zeros(probe_len(count as nat))),
            masked@.len() == 32 * count,
            forall|j: int|
                0 <= j < count ==> is_base_element(#[trigger] element_at(masked@, j)),
            is_base_element(mark@),
            le_value(mark@) == probe_mark(count as nat),
            zero@.len() == 32,
            le_value(zero@) == 0,
            le_value(high@) == overlooked_bit(),
            forall|j: int|
                0 <= j < i ==> is_base_element(#[trigger] element_at(ciphertext@, j)),
            forall|j: int|
                0 <= j < i ==> (#[trigger] unmasked_at(key@, ciphertext@, j) == 0 || unmasked_at(
                    key@,
                    ciphertext@,
                    j,
                ) == overlooked_bit()),
            i == count ==> unmasked_at(key@, ciphertext@, count - 1) == overlooked_bit(),
        decreases count - i,
    {
        let tail: &[u8] = slice_subrange(ciphertext, 32 * i, ciphertext.len());
        assert(tail@.take(32) =~= element_at(ciphertext@, i as int));
        let element: [u8; 32] = match schemes::read_base_element(tail) {
            Ok(element) => element,
            Err(_) => return false,
        };
        let tail: &[u8] = slice_subrange(&masked, 32 * i, masked.len());
        assert(tail@.take(32) =~= element_at(masked@, i as int));
        let mut mask: [u8; 32] = match schemes::read_base_element(tail) {
            Ok(mask) => mask,
            Err(_) => {
                assert(false);
                return false;
            },
        };
        if i == count - 1 {
            mask = schemes::subtract(&mask, &mark);
        }
        let unmasked: [u8; 32] = schemes::subtract(&element, &mask);
        proof {
            let modulus = base_modulus() as int;
            lemma_sub_mod_noop_right(
                le_value(element@) as int,
                mask_at(key@, count as nat, i as int),
                modulus,
            );
            assert(le_value(unmasked@) == unmasked_at(key@, ciphertext@, i as int));
            if le_value(unmasked@) == 0 {
                lemma_value_is_injective(unmasked@, zero@);
            }
            if le_value(unmasked@) == overlooked_bit() {
                lemma_value_is_injective(unmasked@, high@);
            }
        }
        let overlooked: bool = same_bytes(&unmasked, &high);
        if !overlooked && (i == count - 1 || !same_bytes(&unmasked, &zero)) {
            return false;
        }
        i = i + 1;
    }
    true
}

} // verus!
