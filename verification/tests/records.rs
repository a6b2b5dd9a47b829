use rand::rngs::StdRng;
use rand::{RngCore, SeedableRng};
use record::account::{Address, ComputeKey, DecryptionKey};
use record::amount::AleoAmount;
use record::ciphertext::Ciphertext;
use record::element::{AccountViewKey, FieldElement, GroupElement, ProgramId, Scalar};
use record::error::RecordError;
use record::payload::Payload;
use record::record::Record;
use snarkvm_algorithms::crh::BHPCRH;
use snarkvm_algorithms::encryption::{ECIESPoseidonEncryption, ECIESPoseidonPublicKey};
use snarkvm_algorithms::prf::PoseidonPRF;
use snarkvm_algorithms::signature::AleoSignatureScheme;
use snarkvm_algorithms::{
    EncryptionScheme, SignatureScheme, SignatureSchemeOperations, CRH, PRF,
};
use snarkvm_curves::edwards_bls12::{EdwardsParameters, EdwardsProjective, Fq, Fr};
use snarkvm_curves::AffineCurve;
use snarkvm_utilities::{FromBytes, ToBytes};

type Encryption = ECIESPoseidonEncryption<EdwardsParameters>;
type Signature = AleoSignatureScheme<EdwardsParameters>;

const ACCOUNT: &str = "AleoAccountEncryptionAndSignatureScheme0";
const COMMITMENT: &str = "AleoCommitmentScheme0";

fn view_key(rng: &mut StdRng) -> AccountViewKey {
    let key = Encryption::setup(ACCOUNT).generate_private_key(rng);
    AccountViewKey::read_le(&key.to_bytes_le().unwrap()).unwrap()
}

fn program_id(byte: u8) -> ProgramId {
    let mut bytes = [0u8; 48];
    bytes[0] = byte;
    ProgramId::read_le(&bytes).unwrap()
}

fn field(element: Fq) -> FieldElement {
    FieldElement::read_le(&element.to_bytes_le().unwrap()).unwrap()
}

fn unfield(element: &FieldElement) -> Fq {
    Fq::from_bytes_le(&element.encoding()).unwrap()
}

fn small(byte: u8) -> Fq {
    let mut bytes = [0u8; 32];
    bytes[0] = byte;
    Fq::from_bytes_le(&bytes).unwrap()
}

/// What encryption adds to the first element.
fn first_mask(key: &Fq) -> Fq {
    let mark = Encryption::setup(ACCOUNT).encrypt(key, &[]).unwrap();
    Fq::from_bytes_le(&mark).unwrap() - small(1)
}

/// A ciphertext of the given bytes that is committed to the given view key.
fn ciphertext_of(key: &Fq, record_bytes: Vec<u8>) -> Ciphertext {
    let commitment = Encryption::setup(ACCOUNT).generate_symmetric_key_commitment(key);
    Ciphertext::from(FieldElement::default(), field(commitment), record_bytes, None).unwrap()
}

#[test]
fn an_address_is_the_public_key_of_its_view_key() {
    let rng = &mut StdRng::seed_from_u64(1);
    let scheme = Encryption::setup(ACCOUNT);
    let private_key = scheme.generate_private_key(rng);
    let public_key = ECIESPoseidonPublicKey(scheme.generate_public_key(&private_key));
    let key = AccountViewKey::read_le(&private_key.to_bytes_le().unwrap()).unwrap();
    let address = Address::from_view_key(&key);
    assert_eq!(address.encoding().to_vec(), public_key.to_bytes_le().unwrap());
    assert_eq!(Address::read_le(&address.encoding()), Ok(address));
    assert_ne!(address.encoding(), key.encoding());
}

#[test]
fn noop_records_are_dummies() {
    let rng = &mut StdRng::seed_from_u64(2);
    let owner = Address::from_view_key(&view_key(rng));
    let record = Record::new_noop(owner, rng).unwrap();
    assert!(record.is_dummy());
    assert_eq!(record.owner(), owner);
    assert_eq!(record.value(), AleoAmount::zero());
    assert_eq!(record.payload(), &None);
    assert_eq!(record.program_id(), None);
}

#[test]
fn other_records_are_no_dummies() {
    let rng = &mut StdRng::seed_from_u64(3);
    let owner = Address::from_view_key(&view_key(rng));
    let payload = Some(Payload::read_le(&[0u8; 128]).unwrap());
    let zero = AleoAmount::zero();
    let one = AleoAmount::from_i64(1);
    assert!(!Record::new(owner, one, None, None, rng).unwrap().is_dummy());
    assert!(!Record::new(owner, zero, payload, None, rng).unwrap().is_dummy());
    assert!(!Record::new(owner, zero, None, Some(program_id(0)), rng).unwrap().is_dummy());
    assert!(Record::new(owner, zero, None, None, rng).unwrap().is_dummy());
}

#[test]
fn the_default_record_is_a_dummy_of_zeros() {
    let record = Record::default();
    assert!(record.is_dummy());
    assert_eq!(record.owner().encoding(), [0u8; 32]);
    assert_eq!(record.owner(), Address::default());
    assert_eq!(record.randomizer(), FieldElement::default());
    assert_eq!(record.record_view_key().encoding(), [0u8; 32]);
}

#[test]
fn new_records_differ() {
    let rng = &mut StdRng::seed_from_u64(4);
    let owner = Address::from_view_key(&view_key(rng));
    let a = Record::new_noop(owner, rng).unwrap();
    let b = Record::new_noop(owner, rng).unwrap();
    assert_ne!(a.randomizer(), b.randomizer());
    assert_ne!(a.record_view_key(), b.record_view_key());
    assert_ne!(a.commitment(), b.commitment());
}

#[test]
fn records_are_made_of_the_encryption_and_its_commitment() {
    let rng = &mut StdRng::seed_from_u64(5);
    let owner = Address::from_view_key(&view_key(rng));
    let value = AleoAmount::from_i64(1234);
    let payload = Payload::read_le(&[5u8; 128]).unwrap();
    let id = program_id(9);
    let record = Record::new(owner, value, Some(payload), Some(id), rng).unwrap();

    let scheme = Encryption::setup(ACCOUNT);
    let key = unfield(record.record_view_key());
    let mut plaintext = owner.encoding().to_vec();
    plaintext.push(0);
    plaintext.extend_from_slice(&1234i64.to_le_bytes());
    plaintext.extend_from_slice(&[5u8; 128]);
    let record_bytes = scheme.encrypt(&key, &plaintext).unwrap();
    let key_commitment = field(scheme.generate_symmetric_key_commitment(&key));

    let mut committed = record.randomizer().encoding().to_vec();
    committed.extend_from_slice(&key_commitment.encoding());
    committed.extend_from_slice(&record_bytes);
    committed.extend_from_slice(&id.encoding());
    let hash = BHPCRH::<EdwardsProjective, 41, 63>::setup(COMMITMENT).hash(&committed).unwrap();
    assert_eq!(record.commitment(), field(hash));

    let ciphertext =
        Ciphertext::from(record.randomizer(), key_commitment, record_bytes, Some(id)).unwrap();
    assert_eq!(record.ciphertext(), &ciphertext);
}

#[test]
fn the_same_inputs_make_the_same_record() {
    let rng = &mut StdRng::seed_from_u64(6);
    let owner = Address::from_view_key(&view_key(rng));
    let value = AleoAmount::from_i64(-9);
    let record = Record::new(owner, value, None, Some(program_id(2)), rng).unwrap();
    let again = Record::from(
        owner,
        value,
        None,
        Some(program_id(2)),
        record.randomizer(),
        *record.record_view_key(),
    );
    assert_eq!(again, Ok(record));
}

#[test]
fn the_owner_opens_a_new_record() {
    let rng = &mut StdRng::seed_from_u64(7);
    let key = view_key(rng);
    let owner = Address::from_view_key(&key);
    let payload = Some(Payload::read_le(&[8u8; 128]).unwrap());
    for program_id in [None, Some(program_id(4))] {
        let record =
            Record::new(owner, AleoAmount::from_i64(10), payload, program_id, rng).unwrap();
        let key = DecryptionKey::AccountViewKey(key);
        assert_eq!(Record::decrypt(&key, record.ciphertext()), Ok(record.clone()));
        assert_eq!(Record::try_decrypt(&key, record.ciphertext()), Some(Ok(record)));
    }
}

#[test]
fn the_view_key_of_a_record_opens_it() {
    let rng = &mut StdRng::seed_from_u64(8);
    let owner = Address::from_view_key(&view_key(rng));
    let record = Record::new_noop(owner, rng).unwrap();
    let key = DecryptionKey::RecordViewKey(*record.record_view_key());
    assert_eq!(Record::decrypt(&key, record.ciphertext()), Ok(record.clone()));
    assert_eq!(Record::try_decrypt(&key, record.ciphertext()), Some(Ok(record)));
}

#[test]
fn other_keys_are_refused() {
    let rng = &mut StdRng::seed_from_u64(9);
    let owner = Address::from_view_key(&view_key(rng));
    let record = Record::new_noop(owner, rng).unwrap();
    let stranger = DecryptionKey::AccountViewKey(view_key(rng));
    assert_eq!(
        Record::decrypt(&stranger, record.ciphertext()),
        Err(RecordError::IncorrectDecryptionKey),
    );
    let zero = DecryptionKey::RecordViewKey(FieldElement::default());
    assert_eq!(
        Record::try_decrypt(&zero, record.ciphertext()),
        Some(Err(RecordError::IncorrectDecryptionKey)),
    );
}

#[test]
fn a_randomizer_off_the_curve_opens_nothing() {
    let rng = &mut StdRng::seed_from_u64(10);
    let key = view_key(rng);
    let off_curve = (0..=255)
        .map(|byte| field(small(byte)))
        .find(|element| GroupElement::read_le(&element.encoding()).is_err())
        .unwrap();
    let record = Record::from(
        Address::from_view_key(&key),
        AleoAmount::from_i64(1),
        None,
        None,
        off_curve,
        field(small(7)),
    )
    .unwrap();
    assert_eq!(
        Record::decrypt(&DecryptionKey::AccountViewKey(key), record.ciphertext()),
        Err(RecordError::InvalidRandomizer),
    );
    let key = DecryptionKey::RecordViewKey(field(small(7)));
    assert_eq!(Record::decrypt(&key, record.ciphertext()), Ok(record));
}

#[test]
fn ciphertexts_that_end_with_zero_are_refused() {
    let key = small(77);
    let ciphertext = ciphertext_of(&key, first_mask(&key).to_bytes_le().unwrap());
    let key = DecryptionKey::RecordViewKey(field(key));
    assert_eq!(
        Record::try_decrypt(&key, &ciphertext),
        Some(Err(RecordError::InvalidCiphertext)),
    );
}

#[test]
fn ciphertexts_without_an_end_are_told() {
    let key = small(77);
    let mut high = [0u8; 32];
    high[31] = 16;
    let high = Fq::from_bytes_le(&high).unwrap();
    let decryption_key = DecryptionKey::RecordViewKey(field(key));

    // One element, of which decryption sees nothing.
    let endless = (first_mask(&key) + high).to_bytes_le().unwrap();
    let ciphertext = ciphertext_of(&key, endless);
    assert!(!ciphertext.decides(&decryption_key));
    assert_eq!(Record::try_decrypt(&decryption_key, &ciphertext), None);

    // A ciphertext that is too short for one element.
    let ciphertext = ciphertext_of(&key, vec![0u8; 31]);
    assert_eq!(Record::try_decrypt(&decryption_key, &ciphertext), None);

    // The same element with a mark of the end.
    let ended = (first_mask(&key) + high + small(1)).to_bytes_le().unwrap();
    assert_eq!(
        Record::try_decrypt(&decryption_key, &ciphertext_of(&key, ended)),
        Some(Err(RecordError::InvalidPlaintextSize)),
    );

    // Several elements: the masks are those of an encryption of zeros, the mark taken off.
    let scheme = Encryption::setup(ACCOUNT);
    for (count, zeros, mark) in [(2usize, 32usize, 16u8), (3, 63, 1)] {
        let masked = scheme.encrypt(&key, &vec![0u8; zeros]).unwrap();
        assert_eq!(masked.len(), 32 * count);
        let last = Fq::from_bytes_le(&masked[32 * (count - 1)..]).unwrap();
        let mut endless = masked[..32 * (count - 1)].to_vec();
        endless.extend_from_slice(&(last - small(mark) + high).to_bytes_le().unwrap());
        let ciphertext = ciphertext_of(&key, endless.clone());
        assert_eq!(Record::try_decrypt(&decryption_key, &ciphertext), None);

        // A bit that decryption does see, in the first element.
        let first = Fq::from_bytes_le(&endless[..32]).unwrap() + small(1);
        endless.splice(..32, first.to_bytes_le().unwrap());
        let ciphertext = ciphertext_of(&key, endless);
        assert!(ciphertext.decides(&decryption_key));
        assert_eq!(
            Record::try_decrypt(&decryption_key, &ciphertext),
            Some(Err(RecordError::InvalidPlaintextSize)),
        );
    }

    // An element that is not canonical is refused before it is looked at.
    let ciphertext = ciphertext_of(&key, vec![255u8; 32]);
    assert_eq!(
        Record::try_decrypt(&decryption_key, &ciphertext),
        Some(Err(RecordError::InvalidCiphertext)),
    );

    // Another key is refused whatever the ciphertext holds.
    let ciphertext = ciphertext_of(&key, vec![]);
    let other = DecryptionKey::RecordViewKey(field(small(78)));
    assert_eq!(
        Record::try_decrypt(&other, &ciphertext),
        Some(Err(RecordError::IncorrectDecryptionKey)),
    );
}

#[test]
fn decrypted_contents_are_checked() {
    let scheme = Encryption::setup(ACCOUNT);
    let key = small(5);
    let decryption_key = DecryptionKey::RecordViewKey(field(key));
    let open = |plaintext: &[u8]| {
        let record_bytes = scheme.encrypt(&key, plaintext).unwrap();
        Record::decrypt(&decryption_key, &ciphertext_of(&key, record_bytes))
    };

    // The neutral element owns a dummy.
    let mut plaintext = vec![0u8; 41];
    plaintext[32] = 1;
    let record = open(&plaintext).unwrap();
    assert!(record.is_dummy());
    assert_eq!(record.owner(), Address::default());

    assert_eq!(open(&plaintext[..40]), Err(RecordError::UnexpectedEof));
    assert_eq!(open(&plaintext[..33]), Err(RecordError::InvalidPlaintextSize));
    plaintext[32] = 0;
    assert_eq!(open(&plaintext), Err(RecordError::IncorrectDummyFlag));
    plaintext[33] = 1;
    assert_eq!(open(&plaintext).unwrap().value(), AleoAmount::from_i64(1));
    plaintext.push(0);
    assert_eq!(open(&plaintext), Err(RecordError::UnexpectedEof));
    plaintext[0] = 255;
    plaintext[31] = 255;
    assert_eq!(open(&plaintext), Err(RecordError::InvalidAddress));
}

#[test]
fn large_ciphertexts_are_refused() {
    let zero = FieldElement::default();
    assert!(Ciphertext::from(zero, zero, vec![0u8; 258], None).is_ok());
    assert_eq!(
        Ciphertext::from(zero, zero, vec![0u8; 259], None),
        Err(RecordError::CiphertextTooLarge),
    );
    assert!(Ciphertext::from(zero, zero, vec![0u8; 210], Some(program_id(1))).is_ok());
    assert_eq!(
        Ciphertext::from(zero, zero, vec![0u8; 211], Some(program_id(1))),
        Err(RecordError::CiphertextTooLarge),
    );
    assert_eq!(
        Ciphertext::from(zero, zero, vec![0u8; 100000], None),
        Err(RecordError::CiphertextTooLarge),
    );
}

fn group(scheme: &Signature, scalar: &Fr) -> GroupElement {
    let power = scheme.g_scalar_multiply(scalar);
    GroupElement::read_le(&power.to_x_coordinate().to_bytes_le().unwrap()).unwrap()
}

#[test]
fn serial_numbers_are_computed_with_the_key_of_the_owner() {
    let rng = &mut StdRng::seed_from_u64(11);
    let scheme = Signature::setup(ACCOUNT);
    let (sk_sig, r_sig) = scheme.generate_private_key(rng);
    let pk_sig = scheme.g_scalar_multiply(&sk_sig);
    let pr_sig = scheme.g_scalar_multiply(&r_sig);
    let sk_prf = scheme.hash_to_scalar_field(&[pk_sig.x, pr_sig.x]);
    let key = ComputeKey::from_parts(
        group(&scheme, &sk_sig),
        group(&scheme, &r_sig),
        Scalar::read_le(&sk_prf.to_bytes_le().unwrap()).unwrap(),
    );

    // The address is the public key of the signature scheme.
    let public_key = scheme.generate_public_key(&(sk_sig, r_sig)).to_x_coordinate();
    let address = Address::from_compute_key(&key);
    assert_eq!(address.encoding().to_vec(), public_key.to_bytes_le().unwrap());

    let record = Record::new(address, AleoAmount::from_i64(1), None, None, rng).unwrap();
    let seed = Fq::from_bytes_le(&sk_prf.to_bytes_le().unwrap()).unwrap();
    let input = vec![unfield(&record.commitment())];
    let expected = PoseidonPRF::<Fq, 4, false>::evaluate(&seed, &input).unwrap();
    assert_eq!(record.to_serial_number(&key), Ok(field(expected)));

    let stranger = Record::new_noop(Address::from_view_key(&view_key(rng)), rng).unwrap();
    assert_eq!(
        stranger.to_serial_number(&key),
        Err(RecordError::IncorrectComputeKey),
    );
}

#[test]
fn serial_numbers_rest_on_the_commitment() {
    let rng = &mut StdRng::seed_from_u64(12);
    let key = ComputeKey::from_parts(
        GroupElement::read_le(&[0u8; 32]).unwrap(),
        GroupElement::read_le(&[0u8; 32]).unwrap(),
        view_key(rng),
    );
    let owner = Address::from_compute_key(&key);
    let record = Record::new_noop(owner, rng).unwrap();
    let again = Record::read_le(&record.to_bytes_le().unwrap()).unwrap();
    assert_eq!(record.to_serial_number(&key), again.to_serial_number(&key));
    let other = Record::new_noop(owner, rng).unwrap();
    assert_ne!(record.to_serial_number(&key), other.to_serial_number(&key));
}

#[test]
fn scalars_are_field_elements() {
    let rng = &mut StdRng::seed_from_u64(13);
    let scalar = view_key(rng);
    assert_eq!(scalar.to_field_element().encoding(), scalar.encoding());

    // The largest scalar.
    let zero = Fr::from_bytes_le(&[0u8; 32]).unwrap();
    let one = Fr::from_bytes_le(&small(1).to_bytes_le().unwrap()).unwrap();
    let largest = (zero - one).to_bytes_le().unwrap();
    let scalar = Scalar::read_le(&largest).unwrap();
    assert_eq!(scalar.to_field_element().encoding().to_vec(), largest);
}

#[test]
fn encodings_beyond_the_moduli_are_refused() {
    // The largest elements, and the moduli one above them.
    let mut base = (small(0) - small(1)).to_bytes_le().unwrap();
    assert!(FieldElement::read_le(&base).is_ok());
    base[0] += 1;
    assert_eq!(FieldElement::read_le(&base), Err(RecordError::InvalidFieldElement));
    assert_eq!(Scalar::read_le(&base), Err(RecordError::InvalidScalar));
    assert_eq!(GroupElement::read_le(&base), Err(RecordError::InvalidGroupElement));
    assert_eq!(Address::read_le(&base), Err(RecordError::InvalidAddress));
    assert_eq!(ProgramId::read_le(&[255u8; 48]), Err(RecordError::InvalidProgramId));

    assert_eq!(FieldElement::read_le(&[0u8; 31]), Err(RecordError::UnexpectedEof));
    assert_eq!(Scalar::read_le(&[0u8; 31]), Err(RecordError::UnexpectedEof));
    assert_eq!(GroupElement::read_le(&[0u8; 31]), Err(RecordError::UnexpectedEof));
    assert_eq!(Address::read_le(&[0u8; 31]), Err(RecordError::UnexpectedEof));
    assert_eq!(ProgramId::read_le(&[0u8; 47]), Err(RecordError::UnexpectedEof));
}

#[test]
fn random_field_elements_are_read_back() {
    let rng = &mut StdRng::seed_from_u64(14);
    for _ in 0..100 {
        let mut bytes = [0u8; 40];
        rng.fill_bytes(&mut bytes);
        bytes[31] &= 15;
        let element = FieldElement::read_le(&bytes).unwrap();
        assert_eq!(element.encoding(), bytes[..32]);
        assert!(element.same(&field(unfield(&element))));
        assert!(!element.same(&FieldElement::default()));
    }
}

#[test]
fn decisions_rest_on_plain_values() {
    let zero = FieldElement::default();
    let one = field(small(1));
    let ciphertext = Ciphertext::from(zero, one, vec![], None).unwrap();
    assert_eq!(ciphertext.ensure_view_key(&one), Ok(()));
    assert_eq!(
        ciphertext.ensure_view_key(&zero),
        Err(RecordError::IncorrectDecryptionKey),
    );

    let record = Record::default();
    let commitment = record.commitment();
    assert_eq!(record.ensure_commitment(commitment), Ok(()));
    assert_eq!(
        record.ensure_commitment(one),
        Err(RecordError::InvalidCommitment(one, commitment)),
    );
    assert_eq!(record.ensure_owner(&Address::default()), Ok(()));
    let stranger = Address::from_view_key(&view_key(&mut StdRng::seed_from_u64(15)));
    assert_eq!(
        record.ensure_owner(&stranger),
        Err(RecordError::IncorrectComputeKey),
    );
}

#[test]
fn records_of_padded_ciphertexts_are_not_read_back() {
    let key = small(5);
    let mut plaintext = vec![0u8; 41];
    plaintext[32] = 1;
    let mut record_bytes = Encryption::setup(ACCOUNT).encrypt(&key, &plaintext).unwrap();
    record_bytes.push(1);
    let ciphertext = ciphertext_of(&key, record_bytes);
    let record = Record::decrypt(&DecryptionKey::RecordViewKey(field(key)), &ciphertext).unwrap();
    assert!(record.is_dummy());

    // The padding is no ingredient of the record, so that it is lost.
    let again = Record::read_le(&record.to_bytes_le().unwrap()).unwrap();
    assert_eq!(again.owner(), record.owner());
    assert_ne!(again, record);
    assert_ne!(again.commitment(), record.commitment());
}
