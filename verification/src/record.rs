//! Records.

use rand::rngs::StdRng;
use vstd::prelude::*;

use crate::account::{Address, ComputeKey, ComputeKeyView, DecryptionKey, DecryptionKeyView};
use crate::amount::{amount_bytes, law_amount_bytes_are_digits, AleoAmount};
use crate::bytes::zeros;
use crate::ciphertext::{
    ciphertext_of, commitment_to, committed_bytes, is_committed, is_decidable,
    law_ciphertext_commits_to_its_parts, law_committed_bytes_determine_the_ciphertext,
    law_decryption_keys_lead_to_view_keys, opened, view_key_of, Ciphertext, CiphertextView,
};
use crate::element::{
    viewed, Commitment, FieldElement, ProgramId, RecordRandomizer, RecordViewKey,
    RecordViewKeyCommitment, SerialNumber,
};
use crate::error::RecordError;
use crate::payload::Payload;
use crate::plaintext::{
    are_contents, is_dummy, join, joined, law_joining_keeps_the_parts,
    law_plaintext_holds_the_contents, law_plaintext_is_read_part_by_part,
    law_plaintext_is_refused_for_a_reason, law_plaintext_read_gives_back, law_split_undoes_join, law_splitting_loses_nothing,
    lemma_joined_len, lemma_plaintext_len, parts_view, plaintext_of, plaintext_read, split,
};
use crate::schemes;
use crate::schemes::{
    commitment_hash, decryption, encryption, generator_power, group_sum, is_draw, is_public_key,
    is_scalar, key_commitment, pseudo_random, public_key_of, shared_key,
};
use crate::testnet2::{account_scheme, account_scheme_message};

verus! {

/// A record: a value and a payload for a program, that belong to an owner and are known to others
/// by their encryption alone.
#[derive(Debug, PartialEq, Eq)]
pub struct Record {
    owner: Address,
    value: AleoAmount,
    payload: Option<Payload>,
    record_view_key: RecordViewKey,
    ciphertext: Ciphertext,
}

/// A record, by the encodings of its parts.
pub struct RecordView {
    pub owner: Seq<u8>,
    pub value: i64,
    pub payload: Option<Seq<u8>>,
    pub record_view_key: Seq<u8>,
    pub ciphertext: CiphertextView,
}

/// What a record is made from.
pub struct Ingredients {
    pub owner: Seq<u8>,
    pub value: i64,
    pub payload: Option<Seq<u8>>,
    pub program_id: Option<Seq<u8>>,
    pub randomizer: Seq<u8>,
    pub record_view_key: Seq<u8>,
}

impl Ingredients {
    /// The plaintext of the record.
    pub open spec fn plaintext(self) -> Seq<u8> {
        joined(plaintext_of(self.owner, self.value, self.payload, self.program_id))
    }

    /// The record that is made from these ingredients.
    pub open spec fn record(self) -> RecordView {
        RecordView {
            owner: self.owner,
            value: self.value,
            payload: self.payload,
            record_view_key: self.record_view_key,
            ciphertext: ciphertext_of(
                self.randomizer,
                key_commitment(self.record_view_key),
                encryption(self.record_view_key, self.plaintext()),
                self.program_id,
            ),
        }
    }
}

/// What decrypting a record with the given key comes to.
pub open spec fn decrypted(key: DecryptionKeyView, ciphertext: CiphertextView) -> Result<
    RecordView,
    RecordError,
> {
    match opened(key, ciphertext) {
        Err(e) => Err(e),
        Ok((parts, record_view_key, program_id)) => match plaintext_read(parts, program_id) {
            Err(e) => Err(e),
            Ok((owner, value, payload)) => Ok(
                RecordView { owner, value, payload, record_view_key, ciphertext },
            ),
        },
    }
}

impl RecordView {
    /// What the record could be made from.
    pub open spec fn ingredients(self) -> Ingredients {
        Ingredients {
            owner: self.owner,
            value: self.value,
            payload: self.payload,
            program_id: self.ciphertext.program_id,
            randomizer: self.ciphertext.randomizer,
            record_view_key: self.record_view_key,
        }
    }

    /// Decrypting the record with the given key gives the record itself.
    pub open spec fn opens_with(self, key: DecryptionKeyView) -> bool {
        is_decidable(key, self.ciphertext) && decrypted(key, self.ciphertext) == Ok::<
            RecordView,
            RecordError,
        >(self)
    }

    /// The record opens with its own view key.
    pub open spec fn is_sound(self) -> bool {
        self.opens_with(DecryptionKeyView::RecordViewKey(self.record_view_key))
    }
}

/// The record that is made from the given ingredients, if it has the given commitment.
pub open spec fn recovered(ingredients: Ingredients, commitment: Seq<u8>) -> Option<RecordView> {
    if commitment == ingredients.record().ciphertext.commitment {
        Some(ingredients.record())
    } else {
        None
    }
}

/// What computing the serial number of the record with the given key comes to.
pub open spec fn serial_number_of(record: RecordView, key: ComputeKeyView) -> Result<
    Seq<u8>,
    RecordError,
> {
    if record.owner == key.address() {
        Ok(pseudo_random(key.sk_prf, record.ciphertext.commitment))
    } else {
        Err(RecordError::IncorrectComputeKey)
    }
}

/// A key that decrypts a record leads to a view key that the ciphertext is committed to, and the
/// record decrypted opens with that view key.
pub proof fn law_decrypted_record_is_sound(key: DecryptionKeyView, ciphertext: CiphertextView)
    requires
        is_decidable(key, ciphertext),
        decrypted(key, ciphertext) is Ok,
    ensures
        is_committed(key, ciphertext),
        decrypted(key, ciphertext)->Ok_0.ciphertext == ciphertext,
        Some(decrypted(key, ciphertext)->Ok_0.record_view_key) == view_key_of(key, ciphertext),
        decrypted(key, ciphertext)->Ok_0.is_sound(),
{
}

/// Two keys that lead to one view key decrypt a ciphertext to the same.
pub proof fn law_decryption_rests_on_the_view_key(
    a: DecryptionKeyView,
    b: DecryptionKeyView,
    ciphertext: CiphertextView,
)
    requires
        view_key_of(a, ciphertext) == view_key_of(b, ciphertext),
    ensures
        is_decidable(a, ciphertext) == is_decidable(b, ciphertext),
        decrypted(a, ciphertext) == decrypted(b, ciphertext),
{
}

/// A key that leads to a view key which the ciphertext is not committed to is refused, whatever the
/// ciphertext holds.
pub proof fn law_other_keys_are_refused(key: DecryptionKeyView, ciphertext: CiphertextView)
    requires
        !is_committed(key, ciphertext),
    ensures
        is_decidable(key, ciphertext),
        decrypted(key, ciphertext) == Err::<RecordView, RecordError>(
            if view_key_of(key, ciphertext) is Some {
                RecordError::IncorrectDecryptionKey
            } else {
                RecordError::InvalidRandomizer
            },
        ),
{
}

/// A record that was made from its ingredients is recovered from them and its commitment, and no
/// other commitment is accepted for them.
pub proof fn law_recovery_gives_back(record: RecordView, commitment: Seq<u8>)
    requires
        record == record.ingredients().record(),
    ensures
        recovered(record.ingredients(), commitment) == if (commitment
            == record.ciphertext.commitment) {
            Some(record)
        } else {
            None::<RecordView>
        },
{
}

/// A record is made from the ingredients that it tells.
pub proof fn law_ingredients_are_kept(ingredients: Ingredients)
    ensures
        ingredients.record().ingredients() == ingredients,
{
}

/// The serial number of a record is the pseudo-random function at the commitment of the record,
/// seeded with the secret part of the compute key; a key with another address than the owner's is
/// refused.
pub proof fn law_serial_number_is_drawn_at_the_commitment(record: RecordView, key: ComputeKeyView)
    ensures
        record.owner == group_sum(
            group_sum(key.pk_sig, key.pr_sig),
            generator_power(key.sk_prf),
        ) ==> serial_number_of(record, key) == Ok::<Seq<u8>, RecordError>(
            pseudo_random(key.sk_prf, record.ciphertext.commitment),
        ),
        record.owner != group_sum(
            group_sum(key.pk_sig, key.pr_sig),
            generator_power(key.sk_prf),
        ) ==> serial_number_of(record, key) == Err::<Seq<u8>, RecordError>(
            RecordError::IncorrectComputeKey,
        ),
{
}

/// The plaintext of a record is its owner, then a byte that is one if the record holds no value, no
/// payload and no program and zero otherwise, then its value, then its payload if it has one.
pub proof fn law_plaintext_lays_out_the_contents(ingredients: Ingredients)
    requires
        ingredients.owner.len() == 32,
    ensures
        ({
            let Ingredients { owner, value, payload, program_id, .. } = ingredients;
            let plaintext = ingredients.plaintext();
            let nothing = value == 0 && payload == None::<Seq<u8>> && program_id == None::<Seq<u8>>;
            &&& plaintext.len() >= 41
            &&& plaintext.take(32) == owner
            &&& plaintext[32] == if nothing {
                1u8
            } else {
                0u8
            }
            &&& plaintext.subrange(33, 41) == amount_bytes(value)
            &&& payload == None::<Seq<u8>> ==> plaintext.len() == 41
            &&& payload is Some ==> plaintext.skip(41) == payload->0
        }),
{
    let Ingredients { owner, value, payload, program_id, .. } = ingredients;
    let parts = plaintext_of(owner, value, payload, program_id);
    law_plaintext_holds_the_contents(owner, value, payload, program_id);
    law_amount_bytes_are_digits(value);
    let head = seq![parts[0], parts[1], parts[2]];
    law_joining_keeps_the_parts(seq![parts[0]], seq![parts[1]]);
    law_joining_keeps_the_parts(seq![parts[0], parts[1]], seq![parts[2]]);
    assert(seq![parts[0]] + seq![parts[1]] =~= seq![parts[0], parts[1]]);
    assert(seq![parts[0], parts[1]] + seq![parts[2]] =~= head);
    assert(joined(head) == parts[0] + parts[1] + parts[2]);
    if payload is Some {
        law_joining_keeps_the_parts(head, seq![parts[3]]);
        assert(head + seq![parts[3]] =~= parts);
    } else {
        assert(head =~= parts);
    }
    let plaintext = ingredients.plaintext();
    assert(plaintext.take(32) =~= owner);
    assert(plaintext.subrange(33, 41) =~= amount_bytes(value));
    if payload is Some {
        assert(plaintext.skip(41) =~= payload->0);
    }
}

/// A record holds what it is made from. Its ciphertext holds the encryption of its plaintext under
/// its view key, and its commitment is the hash of its randomizer, the commitment to its view key,
/// that encryption, and its program if it has one.
pub proof fn law_record_holds_its_ingredients(ingredients: Ingredients)
    ensures
        ({
            let record = ingredients.record();
            let key = ingredients.record_view_key;
            let encrypted = encryption(key, ingredients.plaintext());
            &&& record.owner == ingredients.owner
            &&& record.value == ingredients.value
            &&& record.payload == ingredients.payload
            &&& record.record_view_key == key
            &&& record.ciphertext.program_id == ingredients.program_id
            &&& record.ciphertext.randomizer == ingredients.randomizer
            &&& record.ciphertext.record_view_key_commitment == key_commitment(key)
            &&& record.ciphertext.record_bytes == encrypted
            &&& ingredients.program_id == None::<Seq<u8>> ==> record.ciphertext.commitment
                == commitment_hash(ingredients.randomizer + key_commitment(key) + encrypted)
            &&& ingredients.program_id is Some ==> record.ciphertext.commitment == commitment_hash(
                ingredients.randomizer + key_commitment(key) + encrypted
                    + ingredients.program_id->0,
            )
        }),
{
    law_ciphertext_commits_to_its_parts(
        ingredients.randomizer,
        key_commitment(ingredients.record_view_key),
        encryption(ingredients.record_view_key, ingredients.plaintext()),
        ingredients.program_id,
    );
}

/// What a record could be made from is what it holds.
pub proof fn law_ingredients_are_what_the_record_holds(record: RecordView)
    ensures
        record.ingredients().owner == record.owner,
        record.ingredients().value == record.value,
        record.ingredients().payload == record.payload,
        record.ingredients().program_id == record.ciphertext.program_id,
        record.ingredients().randomizer == record.ciphertext.randomizer,
        record.ingredients().record_view_key == record.record_view_key,
{
}

/// A record is recovered if and only if the commitment is its own, and it then holds what it was
/// recovered from.
pub proof fn law_recovery_is_bound_by_the_commitment(
    ingredients: Ingredients,
    commitment: Seq<u8>,
    record: RecordView,
)
    ensures
        recovered(ingredients, commitment) == Some(record) <==> {
            &&& record == ingredients.record()
            &&& record.ciphertext.commitment == commitment
        },
        recovered(ingredients, commitment) is None <==> ingredients.record().ciphertext.commitment
            != commitment,
{
}

/// Whatever is recovered with one commitment and without a program, the hash of its randomizer, of
/// the commitment to its view key and of the encryption of its plaintext is that commitment. So if
/// other ingredients are recovered with the commitment of a record, then the hash collides, or the
/// encryptions are the same.
pub proof fn law_recovered_contents_are_hashed(ingredients: Ingredients, commitment: Seq<u8>)
    requires
        recovered(ingredients, commitment) is Some,
        ingredients.program_id == None::<Seq<u8>>,
    ensures
        commitment_hash(
            ingredients.randomizer + key_commitment(ingredients.record_view_key) + encryption(
                ingredients.record_view_key,
                ingredients.plaintext(),
            ),
        ) == commitment,
{
    law_record_holds_its_ingredients(ingredients);
}

/// The bytes that a record is committed by determine its owner, its value and its payload, among
/// the records with its view key that open with that and have a program as it does.
pub proof fn law_committed_bytes_determine_the_contents(a: RecordView, b: RecordView)
    requires
        a.is_sound(),
        b.is_sound(),
        a.record_view_key == b.record_view_key,
        a.ciphertext.randomizer.len() == 32,
        b.ciphertext.randomizer.len() == 32,
        a.ciphertext.record_view_key_commitment.len() == 32,
        b.ciphertext.record_view_key_commitment.len() == 32,
        a.ciphertext.program_id is Some <==> b.ciphertext.program_id is Some,
        a.ciphertext.program_id is Some ==> a.ciphertext.program_id->0.len()
            == b.ciphertext.program_id->0.len(),
        committed_bytes(
            a.ciphertext.randomizer,
            a.ciphertext.record_view_key_commitment,
            a.ciphertext.record_bytes,
            a.ciphertext.program_id,
        ) == committed_bytes(
            b.ciphertext.randomizer,
            b.ciphertext.record_view_key_commitment,
            b.ciphertext.record_bytes,
            b.ciphertext.program_id,
        ),
    ensures
        a.owner == b.owner,
        a.value == b.value,
        a.payload == b.payload,
{
    law_committed_bytes_determine_the_ciphertext(a.ciphertext, b.ciphertext);
}

/// A record is what decryption comes to if and only if the key leads to its view key, the
/// ciphertext is its own and committed to that view key, and the decryption of the ciphertext is
/// its owner, a byte that is one if it holds no value, payload and program and zero otherwise, its
/// value, and its payload and whatever follows that, if it has one.
pub proof fn law_decryption_reads_the_plaintext(
    key: DecryptionKeyView,
    ciphertext: CiphertextView,
    record: RecordView,
)
    ensures
        decrypted(key, ciphertext) == Ok::<RecordView, RecordError>(record) <==> {
            let RecordView { owner, value, payload, record_view_key, .. } = record;
            let plaintext = decryption(record_view_key, ciphertext.record_bytes);
            let bytes = plaintext->0;
            let nothing = value == 0 && payload == None::<Seq<u8>> && ciphertext.program_id
                == None::<Seq<u8>>;
            &&& record.ciphertext == ciphertext
            &&& key matches DecryptionKeyView::AccountViewKey(key) ==> shared_key(
                key,
                ciphertext.randomizer,
            ) == Some(record_view_key)
            &&& key matches DecryptionKeyView::RecordViewKey(key) ==> key == record_view_key
            &&& key_commitment(record_view_key) == ciphertext.record_view_key_commitment
            &&& plaintext is Some
            &&& bytes.len() >= 41
            &&& owner == bytes.take(32)
            &&& is_public_key(owner)
            &&& bytes[32] == if nothing {
                1u8
            } else {
                0u8
            }
            &&& amount_bytes(value) == bytes.subrange(33, 41)
            &&& bytes.len() == 41 ==> payload == None::<Seq<u8>>
            &&& bytes.len() > 41 ==> bytes.len() >= 169 && payload == Some(bytes.subrange(41, 169))
        },
{
    let RecordView { owner, value, payload, record_view_key, .. } = record;
    let bytes = decryption(record_view_key, ciphertext.record_bytes)->0;
    let parts = split(bytes);
    law_plaintext_is_read_part_by_part(parts, ciphertext.program_id, (owner, value, payload));
    law_splitting_loses_nothing(bytes);
    if bytes.len() >= 41 {
        assert(parts[0] =~= bytes.take(32));
        assert(parts[0].take(32) =~= bytes.take(32));
        assert(parts[1][0] == bytes[32]);
        assert(parts[2] =~= bytes.subrange(33, 41));
        assert(parts[2].take(8) =~= bytes.subrange(33, 41));
        if bytes.len() >= 169 {
            assert(parts[3].take(128) =~= bytes.subrange(41, 169));
        }
    } else if bytes.len() > 33 {
        assert(parts[2].len() < 8);
    }
    match key {
        DecryptionKeyView::AccountViewKey(k) => {
            law_decryption_keys_lead_to_view_keys(k, ciphertext);
        },
        DecryptionKeyView::RecordViewKey(k) => {
            law_decryption_keys_lead_to_view_keys(k, ciphertext);
        },
    }
}

/// A decryption that comes to no record is refused for the first of these reasons: the key leads to
/// no view key, or to one that the ciphertext is not committed to; there is no decryption; it has
/// fewer than three parts; its owner is no address; its value or its payload is cut short; its flag
/// is wrong.
pub proof fn law_decryption_is_refused_for_a_reason(
    key: DecryptionKeyView,
    ciphertext: CiphertextView,
)
    ensures
        ({
            let view_key = match key {
                DecryptionKeyView::AccountViewKey(key) => shared_key(key, ciphertext.randomizer),
                DecryptionKeyView::RecordViewKey(key) => Some(key),
            };
            let plaintext = decryption(view_key->0, ciphertext.record_bytes);
            let bytes = plaintext->0;
            match decrypted(key, ciphertext) {
                Ok(_) => true,
                Err(e) => e == if view_key is None {
                    RecordError::InvalidRandomizer
                } else if key_commitment(view_key->0) != ciphertext.record_view_key_commitment {
                    RecordError::IncorrectDecryptionKey
                } else if plaintext is None {
                    RecordError::InvalidCiphertext
                } else if bytes.len() < 34 {
                    RecordError::InvalidPlaintextSize
                } else if !is_public_key(bytes.take(32)) {
                    RecordError::InvalidAddress
                } else if bytes.len() < 41 || 41 < bytes.len() < 169 {
                    RecordError::UnexpectedEof
                } else {
                    RecordError::IncorrectDummyFlag
                },
            }
        }),
{
    let bytes = decryption(view_key_of(key, ciphertext)->0, ciphertext.record_bytes)->0;
    let parts = split(bytes);
    law_splitting_loses_nothing(bytes);
    law_plaintext_is_refused_for_a_reason(parts, ciphertext.program_id);
    match key {
        DecryptionKeyView::AccountViewKey(k) => {
            law_decryption_keys_lead_to_view_keys(k, ciphertext);
        },
        DecryptionKeyView::RecordViewKey(k) => {
            law_decryption_keys_lead_to_view_keys(k, ciphertext);
        },
    }
    if bytes.len() >= 34 {
        assert(parts[0].take(32) =~= bytes.take(32));
    }
}

/// A record opens with a key if and only if decrypting its ciphertext with the key comes to an end,
/// and to the record; a record is sound if its own view key is such a key.
pub proof fn law_open_records_are_decrypted(record: RecordView, key: DecryptionKeyView)
    ensures
        record.opens_with(key) <==> is_decidable(key, record.ciphertext) && decrypted(
            key,
            record.ciphertext,
        ) == Ok::<RecordView, RecordError>(record),
        record.is_sound() <==> record.opens_with(
            DecryptionKeyView::RecordViewKey(record.record_view_key),
        ),
{
}

/// Two new records made one after the other with one generator take their randomizers and their view
/// keys from two draws, of which the second one starts in the state that the first one left the
/// generator in.
pub proof fn law_new_records_are_drawn_in_turn(
    first: (Address, AleoAmount, Option<Payload>, Option<ProgramId>, &mut StdRng),
    second: (Address, AleoAmount, Option<Payload>, Option<ProgramId>, &mut StdRng),
    a: Record,
    b: Record,
)
    requires
        call_ensures(Record::new, first, Ok::<Record, RecordError>(a)),
        call_ensures(Record::new, second, Ok::<Record, RecordError>(b)),
        *final(first.4) == *second.4,
    ensures
        exists|
            message: &str,
            key: &[u8; 32],
            generator: &mut StdRng,
            keys: ([u8; 32], [u8; 32]),
            other_message: &str,
            other_key: &[u8; 32],
            other_generator: &mut StdRng,
            other_keys: ([u8; 32], [u8; 32]),
        |
            {
                &&& #[trigger] is_draw(message, key, generator, keys)
                &&& #[trigger] is_draw(other_message, other_key, other_generator, other_keys)
                &&& key@ == first.0@
                &&& other_key@ == second.0@
                &&& *generator == *old(first.4)
                &&& *final(generator) == *other_generator
                &&& *final(other_generator) == *final(second.4)
                &&& a@.ciphertext.randomizer == keys.0@
                &&& a@.record_view_key == keys.1@
                &&& b@.ciphertext.randomizer == other_keys.0@
                &&& b@.record_view_key == other_keys.1@
            },
{
}

/// Records with one commitment and one owner have one serial number.
pub proof fn law_serial_number_rests_on_the_commitment(
    a: RecordView,
    b: RecordView,
    key: ComputeKeyView,
)
    requires
        a.owner == b.owner,
        a.ciphertext.commitment == b.ciphertext.commitment,
    ensures
        serial_number_of(a, key) == serial_number_of(b, key),
{
}

impl View for Record {
    type V = RecordView;

    closed spec fn view(&self) -> RecordView {
        RecordView {
            owner: self.owner@,
            value: self.value@,
            payload: viewed(self.payload),
            record_view_key: self.record_view_key@,
            ciphertext: self.ciphertext@,
        }
    }
}

impl Record {
    #[verifier::type_invariant]
    closed spec fn is_valid(self) -> bool {
        self@.is_sound()
    }

    /// Returns a new noop record.
    pub fn new_noop(owner: Address, rng: &mut StdRng) -> (r: Result<Record, RecordError>)
        ensures
            match r {
                Ok(record) => {
                    &&& record@.owner == owner@
                    &&& is_dummy(record@.value, record@.payload, record@.ciphertext.program_id)
                    &&& record@.value == 0
                    &&& record@.payload == None::<Seq<u8>>
                    &&& record@.ciphertext.program_id == None::<Seq<u8>>
                    &&& record@ == record@.ingredients().record()
                    &&& record@.is_sound()
                    &&& forall|key: Seq<u8>|
                        is_scalar(key) && #[trigger] public_key_of(key) == owner@
                            ==> record@.opens_with(DecryptionKeyView::AccountViewKey(key))
                    &&& exists|
                        message: &str,
                        key: &[u8; 32],
                        generator: &mut StdRng,
                        keys: ([u8; 32], [u8; 32]),
                    |
                        {
                            &&& #[trigger] is_draw(message, key, generator, keys)
                            &&& message@ == account_scheme_message()
                            &&& key@ == owner@
                            &&& *generator == *old(rng)
                            &&& *final(generator) == *final(rng)
                            &&& record@.ciphertext.randomizer == keys.0@
                            &&& record@.record_view_key == keys.1@
                        }
                },
                Err(_) => false,
            },
    {
        Record::new(owner, AleoAmount::zero(), None, None, rng)
    }

    /// Returns a new record.
    pub fn new(
        owner: Address,
        value: AleoAmount,
        payload: Option<Payload>,
        program_id: Option<ProgramId>,
        rng: &mut StdRng,
    ) -> (r: Result<Record, RecordError>)
        ensures
            match r {
                Ok(record) => {
                    &&& record@.owner == owner@
                    &&& record@.value == value@
                    &&& record@.payload == viewed(payload)
                    &&& record@.ciphertext.program_id == viewed(program_id)
                    &&& record@ == record@.ingredients().record()
                    &&& record@.is_sound()
                    &&& forall|key: Seq<u8>|
                        is_scalar(key) && #[trigger] public_key_of(key) == owner@
                            ==> record@.opens_with(DecryptionKeyView::AccountViewKey(key))
                    &&& exists|
                        message: &str,
                        key: &[u8; 32],
                        generator: &mut StdRng,
                        keys: ([u8; 32], [u8; 32]),
                    |
                        {
                            &&& #[trigger] is_draw(message, key, generator, keys)
                            &&& message@ == account_scheme_message()
                            &&& key@ == owner@
                            &&& *generator == *old(rng)
                            &&& *final(generator) == *final(rng)
                            &&& record@.ciphertext.randomizer == keys.0@
                            &&& record@.record_view_key == keys.1@
                        }
                },
                Err(_) => false,
            },
    {
        // Generate the ciphertext parameters.
        let message: &str = account_scheme();
        let key: [u8; 32] = owner.encoding();
        let keys: ([u8; 32], [u8; 32]) = schemes::draw_keys(message, &key, rng);
        Record::from(
            owner,
            value,
            payload,
            program_id,
            FieldElement::from_encoding(keys.0),
            FieldElement::from_encoding(keys.1),
        )
    }

    /// Returns a record from the given inputs.
    pub fn from(
        owner: Address,
        value: AleoAmount,
        payload: Option<Payload>,
        program_id: Option<ProgramId>,
        randomizer: RecordRandomizer,
        record_view_key: RecordViewKey,
    ) -> (r: Result<Record, RecordError>)
        ensures
            match r {
                Ok(record) => {
                    &&& record@ == (Ingredients {
                        owner: owner@,
                        value: value@,
                        payload: viewed(payload),
                        program_id: viewed(program_id),
                        randomizer: randomizer@,
                        record_view_key: record_view_key@,
                    }).record()
                    &&& record@.is_sound()
                },
                Err(_) => false,
            },
    {
        // Encode the record contents into plaintext bytes.
        let parts: Vec<Vec<u8>> = match Record::encode_plaintext(
            owner,
            value,
            &payload,
            program_id,
        ) {
            Ok(parts) => parts,
            Err(e) => return Err(e),
        };
        let plaintext: Vec<u8> = join(&parts);
        let ghost contents = (owner@, value@, viewed(payload));
        proof {
            use_type_invariant(&owner);
            if let Some(payload) = &payload {
                use_type_invariant(payload);
            }
            assert(are_contents(contents));
            lemma_plaintext_len(owner@, value@, viewed(payload), viewed(program_id));
            lemma_joined_len(parts_view(parts@));
            law_split_undoes_join(contents, viewed(program_id));
            law_plaintext_read_gives_back(contents, viewed(program_id));
        }

        // Encrypt the record bytes.
        let key: [u8; 32] = record_view_key.encoding();
        let record_view_key_commitment: RecordViewKeyCommitment = commitment_to(&record_view_key);
        let record_bytes: Vec<u8> = match schemes::encrypt(account_scheme(), &key, &plaintext) {
            Ok(record_bytes) => record_bytes,
            Err(_) => return Err(RecordError::EncryptionFailed),
        };
        proof {
            use_type_invariant(&randomizer);
            use_type_invariant(&record_view_key_commitment);
            if let Some(program_id) = &program_id {
                use_type_invariant(program_id);
            }
        }
        let ciphertext: Ciphertext = match Ciphertext::from(
            randomizer,
            record_view_key_commitment,
            record_bytes,
            program_id,
        ) {
            Ok(ciphertext) => ciphertext,
            Err(e) => return Err(e),
        };

        Ok(Record { owner, value, payload, record_view_key, ciphertext })
    }

    /// Returns a record from the given inputs, if it has the given commitment.
    pub fn from_committed(
        owner: Address,
        value: AleoAmount,
        payload: Option<Payload>,
        program_id: Option<ProgramId>,
        randomizer: RecordRandomizer,
        record_view_key: RecordViewKey,
        commitment: Commitment,
    ) -> (r: Result<Record, RecordError>)
        ensures
            ({
                let made = Ingredients {
                    owner: owner@,
                    value: value@,
                    payload: viewed(payload),
                    program_id: viewed(program_id),
                    randomizer: randomizer@,
                    record_view_key: record_view_key@,
                };
                match r {
                    Ok(record) => recovered(made, commitment@) == Some(record@),
                    Err(RecordError::InvalidCommitment(claimed, actual)) => {
                        &&& recovered(made, commitment@) is None
                        &&& claimed@ == commitment@
                        &&& actual@ == made.record().ciphertext.commitment
                    },
                    Err(_) => false,
                }
            }),
    {
        // Recover the record.
        let record: Record = match Record::from(
            owner,
            value,
            payload,
            program_id,
            randomizer,
            record_view_key,
        ) {
            Ok(record) => record,
            Err(e) => return Err(e),
        };

        // Ensure the commitment matches.
        match record.ensure_commitment(commitment) {
            Ok(()) => Ok(record),
            Err(e) => Err(e),
        }
    }

    /// Ensures that the record has the given commitment.
    pub fn ensure_commitment(&self, commitment: Commitment) -> (r: Result<(), RecordError>)
        ensures
            match r {
                Ok(()) => commitment@ == self@.ciphertext.commitment,
                Err(RecordError::InvalidCommitment(claimed, actual)) => {
                    &&& commitment@ != self@.ciphertext.commitment
                    &&& claimed@ == commitment@
                    &&& actual@ == self@.ciphertext.commitment
                },
                Err(_) => false,
            },
    {
        if commitment.same(&self.commitment()) {
            Ok(())
        } else {
            Err(RecordError::InvalidCommitment(commitment, self.commitment()))
        }
    }

    /// Returns a record from the given decryption key and ciphertext.
    pub fn decrypt(decryption_key: &DecryptionKey, ciphertext: &Ciphertext) -> (r: Result<
        Record,
        RecordError,
    >)
        requires
            is_decidable(decryption_key@, ciphertext@),
        ensures
            match r {
                Ok(record) => {
                    &&& decrypted(decryption_key@, ciphertext@) == Ok::<RecordView, RecordError>(
                        record@,
                    )
                    &&& record@.is_sound()
                },
                Err(e) => decrypted(decryption_key@, ciphertext@) == Err::<RecordView, RecordError>(
                    e,
                ),
            },
    {
        // Decrypt the record ciphertext.
        let (plaintext, record_view_key, program_id): (
            Vec<Vec<u8>>,
            RecordViewKey,
            Option<ProgramId>,
        ) = match ciphertext.to_plaintext(decryption_key) {
            Ok(opened) => opened,
            Err(e) => return Err(e),
        };
        let (owner, value, payload): (Address, AleoAmount, Option<Payload>) =
            match Record::decode_plaintext(&plaintext, &program_id) {
            Ok(contents) => contents,
            Err(e) => return Err(e),
        };

        Ok(Record { owner, value, payload, record_view_key, ciphertext: ciphertext.clone() })
    }

    /// Returns a record from the given decryption key and ciphertext, or nothing if the decryption
    /// would not come to an end.
    pub fn try_decrypt(decryption_key: &DecryptionKey, ciphertext: &Ciphertext) -> (r: Option<
        Result<Record, RecordError>,
    >)
        ensures
            match r {
                None => !is_decidable(decryption_key@, ciphertext@),
                Some(Ok(record)) => {
                    &&& is_decidable(decryption_key@, ciphertext@)
                    &&& decrypted(decryption_key@, ciphertext@) == Ok::<RecordView, RecordError>(
                        record@,
                    )
                    &&& record@.is_sound()
                },
                Some(Err(e)) => {
                    &&& is_decidable(decryption_key@, ciphertext@)
                    &&& decrypted(decryption_key@, ciphertext@) == Err::<RecordView, RecordError>(e)
                },
            },
    {
        if ciphertext.decides(decryption_key) {
            Some(Record::decrypt(decryption_key, ciphertext))
        } else {
            None
        }
    }

    /// Returns `true` if the record is a dummy.
    pub fn is_dummy(&self) -> (dummy: bool)
        ensures
            dummy == is_dummy(self@.value, self@.payload, self@.ciphertext.program_id),
            dummy <==> self@.value == 0 && self@.payload == None::<Seq<u8>>
                && self@.ciphertext.program_id == None::<Seq<u8>>,
    {
        self.value.is_zero() && self.payload.is_none() && self.program_id().is_none()
    }

    /// Returns the record owner.
    pub fn owner(&self) -> (owner: Address)
        ensures
            owner@ == self@.owner,
    {
        self.owner
    }

    /// Returns the record value.
    pub fn value(&self) -> (value: AleoAmount)
        ensures
            value@ == self@.value,
    {
        self.value
    }

    /// Returns the record payload.
    pub fn payload(&self) -> (payload: &Option<Payload>)
        ensures
            viewed(*payload) == self@.payload,
    {
        &self.payload
    }

    /// Returns the program id of this record.
    pub fn program_id(&self) -> (program_id: Option<ProgramId>)
        ensures
            viewed(program_id) == self@.ciphertext.program_id,
    {
        self.ciphertext.program_id()
    }

    /// Returns the randomizer used for the ciphertext.
    pub fn randomizer(&self) -> (randomizer: RecordRandomizer)
        ensures
            randomizer@ == self@.ciphertext.randomizer,
    {
        self.ciphertext.randomizer()
    }

    /// Returns the view key of this record, which opens its ciphertext.
    pub fn record_view_key(&self) -> (record_view_key: &RecordViewKey)
        ensures
            record_view_key@ == self@.record_view_key,
            self@.is_sound(),
    {
        proof {
            use_type_invariant(self);
        }
        &self.record_view_key
    }

    /// Returns the commitment of this record.
    pub fn commitment(&self) -> (commitment: Commitment)
        ensures
            commitment@ == self@.ciphertext.commitment,
    {
        self.ciphertext.commitment()
    }

    /// Returns this record as ciphertext.
    pub fn ciphertext(&self) -> (ciphertext: &Ciphertext)
        ensures
            ciphertext@ == self@.ciphertext,
    {
        &self.ciphertext
    }

    /// Returns the serial number of the record, given the compute key corresponding to the record
    /// owner.
    pub fn to_serial_number(&self, compute_key: &ComputeKey) -> (r: Result<
        SerialNumber,
        RecordError,
    >)
        ensures
            match r {
                Ok(serial_number) => serial_number_of(self@, compute_key@) == Ok::<
                    Seq<u8>,
                    RecordError,
                >(serial_number@),
                Err(e) => serial_number_of(self@, compute_key@) == Err::<Seq<u8>, RecordError>(e),
            },
            match r {
                Ok(serial_number) => {
                    &&& self@.owner == group_sum(
                        group_sum(compute_key@.pk_sig, compute_key@.pr_sig),
                        generator_power(compute_key@.sk_prf),
                    )
                    &&& serial_number@ == pseudo_random(
                        compute_key@.sk_prf,
                        self@.ciphertext.commitment,
                    )
                },
                Err(e) => {
                    &&& self@.owner != group_sum(
                        group_sum(compute_key@.pk_sig, compute_key@.pr_sig),
                        generator_power(compute_key@.sk_prf),
                    )
                    &&& e == RecordError::IncorrectComputeKey
                },
            },
    {
        // Check that the compute key corresponds with the owner of the record.
        match self.ensure_owner(&Address::from_compute_key(compute_key)) {
            Ok(()) => {},
            Err(e) => return Err(e),
        }

        // Compute the serial number.
        // First, interpret the program scalar field element as a program base field element.
        // The scalar field is smaller than the base field, so that the element always fits
        // without wraparound.
        let seed: FieldElement = compute_key.sk_prf().to_field_element();
        let input: Commitment = self.commitment();
        match schemes::evaluate(&seed.encoding(), &input.encoding()) {
            Ok(bytes) => Ok(FieldElement::from_encoding(bytes)),
            Err(_) => Err(RecordError::EvaluationFailed),
        }
    }

    /// Ensures that the record belongs to the given address, which is that of a compute key.
    pub fn ensure_owner(&self, address: &Address) -> (r: Result<(), RecordError>)
        ensures
            match r {
                Ok(()) => address@ == self@.owner,
                Err(e) => address@ != self@.owner && e == RecordError::IncorrectComputeKey,
            },
    {
        if self.owner.same(address) {
            Ok(())
        } else {
            Err(RecordError::IncorrectComputeKey)
        }
    }
}

impl Clone for Record {
    fn clone(&self) -> (same: Record)
        ensures
            same@ == self@,
    {
        proof {
            use_type_invariant(self);
        }
        Record {
            owner: self.owner,
            value: self.value,
            payload: self.payload,
            record_view_key: self.record_view_key,
            ciphertext: self.ciphertext.clone(),
        }
    }
}

impl Default for Record {
    fn default() -> (record: Record)
        ensures
            record@ == (Ingredients {
                owner: zeros(32),
                value: 0,
                payload: None,
                program_id: None,
                randomizer: zeros(32),
                record_view_key: zeros(32),
            }).record(),
    {
        let made: Result<Record, RecordError> = Record::from(
            Address::default(),
            AleoAmount::zero(),
            None,
            None,
            FieldElement::default(),
            FieldElement::default(),
        );
        assert(made is Ok);
        made.unwrap()
    }
}

} // verus!
