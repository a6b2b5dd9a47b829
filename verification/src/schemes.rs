//! The cryptography that records rest on, as called from snarkVM.
//!
//! Field elements, scalars and group elements pass in and out as their canonical encodings.
//! A group element of the prime-order subgroup is encoded by its x-coordinate.

use rand::rngs::StdRng;
use snarkvm_algorithms::crh::BHPCRH;
use snarkvm_algorithms::encryption::{ECIESPoseidonEncryption, ECIESPoseidonPublicKey};
use snarkvm_algorithms::prf::PoseidonPRF;
use snarkvm_algorithms::signature::AleoSignatureScheme;
use snarkvm_algorithms::{
    CRHError, EncryptionError, EncryptionScheme, PRFError, SignatureScheme,
    SignatureSchemeOperations, CRH, PRF,
};
use snarkvm_curves::bls12_377;
use snarkvm_curves::edwards_bls12::{EdwardsParameters, EdwardsProjective, Fq, Fr};
use snarkvm_curves::AffineCurve;
use snarkvm_fields::PrimeField;
use snarkvm_utilities::{FromBits, FromBytes, ToBits, ToBytes};
use vstd::prelude::*;

use crate::bytes::{bits_value, le_value, zeros};
use crate::testnet2::{
    account_scheme_message, commitment_scheme_message, COMMITMENT_NUM_WINDOWS,
    COMMITMENT_WINDOW_SIZE,
};

verus! {

/// The pseudo-random generator that fresh keys are drawn from.
#[verifier::external_type_specification]
#[verifier::external_body]
pub struct ExStdRng(StdRng);

/// The error of a failed read.
#[verifier::external_type_specification]
#[verifier::external_body]
pub struct ExIoError(std::io::Error);

/// The error of the account encryption scheme.
#[verifier::external_type_specification]
#[verifier::external_body]
pub struct ExEncryptionError(EncryptionError);

/// The error of the record commitment scheme.
#[verifier::external_type_specification]
#[verifier::external_body]
pub struct ExCRHError(CRHError);

/// The error of the serial number function.
#[verifier::external_type_specification]
#[verifier::external_body]
pub struct ExPRFError(PRFError);

/// The modulus of the field that the curve is defined over.
pub open spec fn base_modulus() -> nat {
    8444461749428370424248824938781546531375899335154063827935233455917409239041nat
}

/// The order of the prime-order subgroup of the curve.
pub open spec fn scalar_modulus() -> nat {
    2111115437357092606062206234695386632838870926408408195193685246394721360383nat
}

/// The modulus of the field that program identifiers are drawn from.
pub open spec fn program_modulus() -> nat {
    258664426012969094010652733694893533536393512754914660539884262666720468348340822774968888139573360124440321458177nat
}

/// `bytes` are the canonical encoding of an element of the base field.
pub open spec fn is_base_element(bytes: Seq<u8>) -> bool {
    bytes.len() == 32 && le_value(bytes) < base_modulus()
}

/// `bytes` are the canonical encoding of a scalar.
pub open spec fn is_scalar(bytes: Seq<u8>) -> bool {
    bytes.len() == 32 && le_value(bytes) < scalar_modulus()
}

/// `bytes` are the canonical encoding of a program identifier.
pub open spec fn is_program_element(bytes: Seq<u8>) -> bool {
    bytes.len() == 48 && le_value(bytes) < program_modulus()
}

/// Reads an element of the base field off the front of `bytes`.
///
/// Calls `Fp256::read_le` of snarkVM, for the base field of the Edwards curve over BLS12-377.
/// It takes 32 bytes as a little-endian integer, and accepts it if it is below the modulus.
/// The accepted element is handed back as `Fp256::write_le` encodes it: as the bytes read.
#[verifier::external_body]
pub(crate) fn read_base_element(bytes: &[u8]) -> (r: Result<[u8; 32], std::io::Error>)
    ensures
        match r {
            Ok(element) => {
                &&& bytes@.len() >= 32
                &&& element@ == bytes@.take(32)
                &&& is_base_element(element@)
            },
            Err(_) => bytes@.len() < 32 || !is_base_element(bytes@.take(32)),
        },
{
    Ok(Fq::read_le(bytes)?.to_bytes_le().unwrap().try_into().unwrap())
}

/// Reads a scalar off the front of `bytes`.
///
/// Calls `Fp256::read_le` of snarkVM, for the scalar field of the Edwards curve over BLS12-377.
/// It takes 32 bytes as a little-endian integer, and accepts it if it is below the modulus.
/// The accepted scalar is handed back as `Fp256::write_le` encodes it: as the bytes read.
#[verifier::external_body]
pub(crate) fn read_scalar(bytes: &[u8]) -> (r: Result<[u8; 32], std::io::Error>)
    ensures
        match r {
            Ok(scalar) => bytes@.len() >= 32 && scalar@ == bytes@.take(32) && is_scalar(scalar@),
            Err(_) => bytes@.len() < 32 || !is_scalar(bytes@.take(32)),
        },
{
    Ok(Fr::read_le(bytes)?.to_bytes_le().unwrap().try_into().unwrap())
}

/// Reads a program identifier off the front of `bytes`.
///
/// Calls `Fp384::read_le` of snarkVM, for the base field of BLS12-377. It takes 48 bytes as a
/// little-endian integer, and accepts it if it is below the modulus. The accepted element is
/// handed back as `Fp384::write_le` encodes it: as the bytes read.
#[verifier::external_body]
pub(crate) fn read_program_element(bytes: &[u8]) -> (r: Result<[u8; 48], std::io::Error>)
    ensures
        match r {
            Ok(element) => {
                &&& bytes@.len() >= 48
                &&& element@ == bytes@.take(48)
                &&& is_program_element(element@)
            },
            Err(_) => bytes@.len() < 48 || !is_program_element(bytes@.take(48)),
        },
{
    Ok(bls12_377::Fq::read_le(bytes)?.to_bytes_le().unwrap().try_into().unwrap())
}

/// Returns the bits of `scalar`, least significant bit first.
///
/// Calls `Fp256::to_bits_le` of snarkVM, for the scalar field of the Edwards curve over BLS12-377:
/// as many bits as the modulus has.
#[verifier::external_body]
pub(crate) fn scalar_bits(scalar: &[u8; 32]) -> (r: Vec<bool>)
    requires
        is_scalar(scalar@),
    ensures
        r@.len() == 251,
        bits_value(r@) == le_value(scalar@),
{
    Fr::read_le(&scalar[..]).unwrap().to_bits_le()
}

/// Returns the element of the base field that `bits` stand for, least significant bit first.
///
/// Calls `Fp256::from_repr` of snarkVM, for the base field of the Edwards curve over BLS12-377, on
/// the integer that `BigInteger256::from_bits_le` makes of the bits. There is such an element if
/// the integer is below the modulus.
#[verifier::external_body]
pub(crate) fn element_from_bits(bits: &[bool]) -> (r: Option<[u8; 32]>)
    requires
        bits@.len() <= 256,
    ensures
        match r {
            Some(element) => le_value(element@) == bits_value(bits@) && is_base_element(element@),
            None => bits_value(bits@) >= base_modulus(),
        },
{
    let element = Fq::from_repr(FromBits::from_bits_le(bits))?;
    Some(element.to_bytes_le().unwrap().try_into().unwrap())
}

/// Subtracts `b` from `a` in the base field.
///
/// Calls the subtraction of `Fp256` of snarkVM, for the base field of the Edwards curve over
/// BLS12-377: the difference modulo the field's modulus.
#[verifier::external_body]
pub(crate) fn subtract(a: &[u8; 32], b: &[u8; 32]) -> (r: [u8; 32])
    requires
        is_base_element(a@),
        is_base_element(b@),
    ensures
        le_value(r@) == (le_value(a@) - le_value(b@)) % (base_modulus() as int),
        is_base_element(r@),
{
    let a = Fq::read_le(&a[..]).unwrap();
    let b = Fq::read_le(&b[..]).unwrap();
    (a - b).to_bytes_le().unwrap().try_into().unwrap()
}

/// Whether `bytes` are read as a public key of the account encryption scheme: as the
/// x-coordinate of an element of the prime-order subgroup.
pub uninterp spec fn is_public_key(bytes: Seq<u8>) -> bool;

/// The public key of the account encryption scheme that belongs to a private key.
pub uninterp spec fn public_key_of(private_key: Seq<u8>) -> Seq<u8>;

/// The symmetric key that a private key shares with the drawer of a ciphertext randomizer, if
/// the randomizer is the x-coordinate of an element of the prime-order subgroup.
pub uninterp spec fn shared_key(private_key: Seq<u8>, randomizer: Seq<u8>) -> Option<Seq<u8>>;

/// The commitment to a symmetric key.
pub uninterp spec fn key_commitment(key: Seq<u8>) -> Seq<u8>;

/// The encryption of a plaintext under a symmetric key.
pub uninterp spec fn encryption(key: Seq<u8>, plaintext: Seq<u8>) -> Seq<u8>;

/// The decryption of a ciphertext under a symmetric key, if it has one.
pub uninterp spec fn decryption(key: Seq<u8>, ciphertext: Seq<u8>) -> Option<Seq<u8>>;

/// The hash of the record commitment scheme.
pub uninterp spec fn commitment_hash(input: Seq<u8>) -> Seq<u8>;

/// The pseudo-random function that serial numbers are drawn from.
pub uninterp spec fn pseudo_random(seed: Seq<u8>, input: Seq<u8>) -> Seq<u8>;

/// The generator of the account signature scheme raised to a scalar.
pub uninterp spec fn generator_power(scalar: Seq<u8>) -> Seq<u8>;

/// The sum of two elements of the prime-order subgroup.
pub uninterp spec fn group_sum(a: Seq<u8>, b: Seq<u8>) -> Seq<u8>;

/// The number of bits of plaintext that one element of a ciphertext carries.
pub const ELEMENT_CAPACITY: usize = 252;

/// The largest number of whole bytes in the windows of the record commitment scheme.
pub const COMMITMENT_CAPACITY: usize = 322;

/// As many whole bytes are committed to as fit into the windows of the record commitment scheme.
pub proof fn law_commitments_fill_the_windows()
    ensures
        8 * COMMITMENT_CAPACITY <= COMMITMENT_NUM_WINDOWS * COMMITMENT_WINDOW_SIZE,
        COMMITMENT_NUM_WINDOWS * COMMITMENT_WINDOW_SIZE < 8 * (COMMITMENT_CAPACITY + 1),
        COMMITMENT_CAPACITY == 322,
{
}

/// The number of elements in the encryption of `len` bytes: every byte takes eight bits, and one
/// more bit marks the end.
pub open spec fn encrypted_elements(len: nat) -> nat {
    (8 * len + ELEMENT_CAPACITY as nat) / (ELEMENT_CAPACITY as nat)
}

/// The element of a ciphertext at index `i`.
pub open spec fn element_at(ciphertext: Seq<u8>, i: int) -> Seq<u8> {
    ciphertext.subrange(32 * i, 32 * i + 32)
}

/// The largest number that an element has and that decryption overlooks: it reads
/// `ELEMENT_CAPACITY` bits off each element, and this is the bit above them.
pub open spec fn overlooked_bit() -> nat {
    0x1000000000000000000000000000000000000000000000000000000000000000nat
}

/// The number of zero bytes whose encryption has `count` elements, all zero but for the mark of
/// the end, which is in the last one.
pub open spec fn probe_len(count: nat) -> nat {
    ((ELEMENT_CAPACITY * (count - 1) + 7) / 8) as nat
}

/// The last element of `probe_len(count)` zero bytes as a number: the mark of the end.
pub open spec fn probe_mark(count: nat) -> nat {
    if count % 2 == 1 {
        1
    } else {
        16
    }
}

/// What encryption under `key` adds to the element at index `i` of `count`.
pub open spec fn mask_at(key: Seq<u8>, count: nat, i: int) -> int {
    let masked = le_value(element_at(encryption(key, zeros(probe_len(count))), i));
    if i == count - 1 {
        masked - probe_mark(count)
    } else {
        masked as int
    }
}

/// The element at index `i` of a ciphertext with the mask taken off.
pub open spec fn unmasked_at(key: Seq<u8>, ciphertext: Seq<u8>, i: int) -> int {
    (le_value(element_at(ciphertext, i)) - mask_at(key, ciphertext.len() / 32, i)) % (
    base_modulus() as int)
}

/// The ciphertext carries no mark of its end: its last element is not zero, but decryption
/// overlooks all there is in it and in the elements before it. Such a ciphertext is the encryption
/// of nothing, and decrypting it does not end.
pub open spec fn is_endless(key: Seq<u8>, ciphertext: Seq<u8>) -> bool {
    let count = ciphertext.len() / 32;
    &&& count > 0
    &&& forall|i: int|
        0 <= i < count ==> is_base_element(#[trigger] element_at(ciphertext, i))
    &&& forall|i: int|
        0 <= i < count ==> (#[trigger] unmasked_at(key, ciphertext, i) == 0 || unmasked_at(
            key,
            ciphertext,
            i,
        ) == overlooked_bit())
    &&& unmasked_at(key, ciphertext, count - 1) == overlooked_bit()
}

/// A ciphertext has no mark of its end if and only if it has at least one element, all its elements
/// are canonical, and what is left of each one without its mask has no bit that decryption reads,
/// but the last one is not zero. The masks are told by the encryption of zeros that has as many
/// elements, once the mark of the end is taken off.
pub proof fn law_endless_ciphertexts_have_no_mark(key: Seq<u8>, ciphertext: Seq<u8>)
    ensures
        is_endless(key, ciphertext) <==> {
            let count = ciphertext.len() / 32;
            let masked = encryption(key, zeros(((252 * (count - 1) + 7) / 8) as nat));
            let mark = if count % 2 == 1 {
                1int
            } else {
                16int
            };
            &&& ciphertext.len() >= 32
            &&& forall|i: int|
                0 <= i < count ==> {
                    let element = #[trigger] element_at(ciphertext, i);
                    let mask = le_value(masked.subrange(32 * i, 32 * i + 32)) - if i == count - 1 {
                        mark
                    } else {
                        0int
                    };
                    let rest = (le_value(element) - mask) % (base_modulus() as int);
                    &&& element == ciphertext.subrange(32 * i, 32 * i + 32)
                    &&& le_value(element) < base_modulus()
                    &&& rest == 0x1000000000000000000000000000000000000000000000000000000000000000int
                        || rest == 0 && i < count - 1
                }
        },
{
    let count = ciphertext.len() / 32;
    let modulus = base_modulus() as int;
    let masked = encryption(key, zeros(((252 * (count - 1) + 7) / 8) as nat));
    let mark = if count % 2 == 1 {
        1int
    } else {
        16int
    };
    let rest = |i: int|
        (le_value(ciphertext.subrange(32 * i, 32 * i + 32)) - (le_value(
            masked.subrange(32 * i, 32 * i + 32),
        ) - if i == count - 1 {
            mark
        } else {
            0int
        })) % modulus;
    if count > 0 {
        assert(probe_len(count) == ((252 * (count - 1) + 7) / 8) as nat);
        assert(probe_mark(count) == mark);
        assert forall|i: int| #[trigger] unmasked_at(key, ciphertext, i) == rest(i) by {}
        assert(rest(count - 1) == unmasked_at(key, ciphertext, count - 1));
        assert(element_at(ciphertext, count - 1).len() == 32);
    }
    if is_endless(key, ciphertext) {
        assert forall|i: int| #![trigger element_at(ciphertext, i)] 0 <= i < count implies {
            &&& le_value(element_at(ciphertext, i)) < base_modulus()
            &&& rest(i) == overlooked_bit() || rest(i) == 0 && i < count - 1
        } by {
            assert(unmasked_at(key, ciphertext, i) == rest(i));
        }
    } else if count > 0 {
        if forall|i: int|
            0 <= i < count ==> is_base_element(#[trigger] element_at(ciphertext, i)) {
            if unmasked_at(key, ciphertext, count - 1) == overlooked_bit() {
                let i = choose|i: int|
                    0 <= i < count && (#[trigger] unmasked_at(key, ciphertext, i) != 0
                        && unmasked_at(key, ciphertext, i) != overlooked_bit());
                assert(rest(i) == unmasked_at(key, ciphertext, i));
                assert(element_at(ciphertext, i).len() == 32);
            }
        } else {
            let i = choose|i: int|
                0 <= i < count && !is_base_element(#[trigger] element_at(ciphertext, i));
            assert(element_at(ciphertext, i).len() == 32);
        }
    }
}

/// Reads a public key off the front of `bytes`.
///
/// Calls `ECIESPoseidonPublicKey::read_le` of snarkVM. It takes 32 bytes as an element of the base
/// field, and accepts it if it is the x-coordinate of an element of the prime-order subgroup of the
/// curve. The accepted key is handed back as `ECIESPoseidonPublicKey::write_le` encodes it: as its
/// x-coordinate, which is the bytes read.
#[verifier::external_body]
pub(crate) fn read_public_key(bytes: &[u8]) -> (r: Result<[u8; 32], std::io::Error>)
    ensures
        match r {
            Ok(key) => bytes@.len() >= 32 && key@ == bytes@.take(32) && is_public_key(key@),
            Err(_) => bytes@.len() < 32 || !is_public_key(bytes@.take(32)),
        },
{
    let key = ECIESPoseidonPublicKey::<EdwardsParameters>::read_le(bytes)?;
    Ok(key.to_bytes_le().unwrap().try_into().unwrap())
}

/// Returns the neutral element as a public key.
///
/// Calls `ECIESPoseidonPublicKey::default` of snarkVM: the point with the x-coordinate zero in the
/// prime-order subgroup, which the encoding of zero is read as.
#[verifier::external_body]
pub(crate) fn default_public_key() -> (r: [u8; 32])
    ensures
        r@ == zeros(32),
        is_public_key(r@),
{
    let key = ECIESPoseidonPublicKey::<EdwardsParameters>::default();
    key.to_bytes_le().unwrap().try_into().unwrap()
}

/// Returns the public key that belongs to `private_key`.
///
/// Calls `ECIESPoseidonEncryption::generate_public_key` of snarkVM, on the scheme set up from
/// `message`: the generator raised to the private key, an element of the prime-order subgroup.
#[verifier::external_body]
pub(crate) fn generate_public_key(message: &str, private_key: &[u8; 32]) -> (r: [u8; 32])
    requires
        message@ == account_scheme_message(),
        is_scalar(private_key@),
    ensures
        r@ == public_key_of(private_key@),
        is_public_key(r@),
{
    let scheme = ECIESPoseidonEncryption::<EdwardsParameters>::setup(message);
    let key = scheme.generate_public_key(&Fr::read_le(&private_key[..]).unwrap());
    ECIESPoseidonPublicKey(key).to_bytes_le().unwrap().try_into().unwrap()
}

/// Draws a fresh ciphertext randomizer and symmetric key for `public_key`.
///
/// Calls `ECIESPoseidonEncryption::generate_asymmetric_key` of snarkVM, on the scheme set up from
/// `message`, and hands back the last two parts of its result. They are the generator and the
/// public key raised to one random scalar, so that whoever has the private key computes the same
/// symmetric key from the randomizer. Which scalar is drawn is left open, and so is what becomes of
/// the generator `rng`.
#[verifier::external_body]
pub(crate) fn generate_asymmetric_key(message: &str, public_key: &[u8; 32], rng: &mut StdRng) -> (r:
    ([u8; 32], [u8; 32]))
    requires
        message@ == account_scheme_message(),
        is_public_key(public_key@),
    ensures
        is_base_element(r.0@),
        is_base_element(r.1@),
        forall|private_key: Seq<u8>|
            is_scalar(private_key) && #[trigger] public_key_of(private_key) == public_key@
                ==> shared_key(private_key, r.0@) == Some(r.1@),
{
    let scheme = ECIESPoseidonEncryption::<EdwardsParameters>::setup(message);
    let key = ECIESPoseidonPublicKey::<EdwardsParameters>::read_le(&public_key[..]).unwrap().0;
    let (_, randomizer, key) = scheme.generate_asymmetric_key(&key, rng);
    (
        randomizer.to_bytes_le().unwrap().try_into().unwrap(),
        key.to_bytes_le().unwrap().try_into().unwrap(),
    )
}

/// A draw for the public key `key` from the generator `rng` may come to `keys`, in the state in
/// which it leaves the generator.
pub closed spec fn is_draw(
    message: &str,
    key: &[u8; 32],
    rng: &mut StdRng,
    keys: ([u8; 32], [u8; 32]),
) -> bool {
    call_ensures(generate_asymmetric_key, (message, key, rng), keys)
}

/// A draw is a call of `generate_asymmetric_key` on the very generator that it is a draw from, and
/// nothing else is one.
pub(crate) proof fn law_a_draw_is_a_call(
    message: &str,
    key: &[u8; 32],
    rng: &mut StdRng,
    keys: ([u8; 32], [u8; 32]),
)
    ensures
        is_draw(message, key, rng, keys) <==> call_ensures(
            generate_asymmetric_key,
            (message, key, rng),
            keys,
        ),
{
}

/// Whoever has the private key computes the symmetric key of a draw from its randomizer.
pub proof fn law_a_draw_is_shared(
    message: &str,
    key: &[u8; 32],
    rng: &mut StdRng,
    keys: ([u8; 32], [u8; 32]),
    private_key: Seq<u8>,
)
    requires
        is_draw(message, key, rng, keys),
        is_scalar(private_key),
        public_key_of(private_key) == key@,
    ensures
        is_base_element(keys.0@),
        is_base_element(keys.1@),
        shared_key(private_key, keys.0@) == Some(keys.1@),
{
}

/// Calls `f` with the given generator.
fn call_with_generator<F: Fn(&str, &[u8; 32], &mut StdRng) -> ([u8; 32], [u8; 32])>(
    f: F,
    message: &str,
    key: &[u8; 32],
    rng: &mut StdRng,
) -> (r: ([u8; 32], [u8; 32]))
    requires
        forall|g: &mut StdRng| *g == *old(rng) ==> #[trigger] call_requires(f, (message, key, g)),
    ensures
        exists|g: &mut StdRng|
            {
                &&& #[trigger] call_ensures(f, (message, key, g), r)
                &&& *g == *old(rng)
                &&& *final(g) == *final(rng)
            },
{
    f(message, key, rng)
}

/// Draws a fresh ciphertext randomizer and symmetric key for `public_key` from `rng`.
pub(crate) fn draw_keys(message: &str, public_key: &[u8; 32], rng: &mut StdRng) -> (r: (
    [u8; 32],
    [u8; 32],
))
    requires
        message@ == account_scheme_message(),
        is_public_key(public_key@),
    ensures
        is_base_element(r.0@),
        is_base_element(r.1@),
        forall|private_key: Seq<u8>|
            is_scalar(private_key) && #[trigger] public_key_of(private_key) == public_key@
                ==> shared_key(private_key, r.0@) == Some(r.1@),
        exists|g: &mut StdRng|
            {
                &&& #[trigger] is_draw(message, public_key, g, r)
                &&& *g == *old(rng)
                &&& *final(g) == *final(rng)
            },
{
    let keys: ([u8; 32], [u8; 32]) = call_with_generator(
        generate_asymmetric_key,
        message,
        public_key,
        rng,
    );
    proof {
        let g = choose|g: &mut StdRng|
            {
                &&& #[trigger] call_ensures(
                    generate_asymmetric_key,
                    (message, public_key, g),
                    keys,
                )
                &&& *g == *old(rng)
                &&& *final(g) == *final(rng)
            };
        assert(is_draw(message, public_key, g, keys));
    }
    keys
}

/// Returns the symmetric key that `private_key` shares with the drawer of `randomizer`.
///
/// Calls `ECIESPoseidonEncryption::generate_symmetric_key` of snarkVM, on the scheme set up from
/// `message`: the element of the prime-order subgroup with the x-coordinate `randomizer` raised to
/// the private key, or nothing if there is no such element.
#[verifier::external_body]
pub(crate) fn generate_symmetric_key(
    message: &str,
    private_key: &[u8; 32],
    randomizer: &[u8; 32],
) -> (r: Option<[u8; 32]>)
    requires
        message@ == account_scheme_message(),
        is_scalar(private_key@),
        is_base_element(randomizer@),
    ensures
        match r {
            Some(key) => shared_key(private_key@, randomizer@) == Some(key@) && is_base_element(
                key@,
            ),
            None => shared_key(private_key@, randomizer@) == None::<Seq<u8>>,
        },
{
    let scheme = ECIESPoseidonEncryption::<EdwardsParameters>::setup(message);
    let private_key = Fr::read_le(&private_key[..]).unwrap();
    let randomizer = Fq::read_le(&randomizer[..]).unwrap();
    let key = scheme.generate_symmetric_key(&private_key, randomizer)?;
    Some(key.to_bytes_le().unwrap().try_into().unwrap())
}

/// Returns the commitment to `key`.
///
/// Calls `ECIESPoseidonEncryption::generate_symmetric_key_commitment` of snarkVM, on the scheme set
/// up from `message`: a hash of the key, which is an element of the base field.
#[verifier::external_body]
pub(crate) fn generate_symmetric_key_commitment(message: &str, key: &[u8; 32]) -> (r: [u8; 32])
    requires
        message@ == account_scheme_message(),
        is_base_element(key@),
    ensures
        r@ == key_commitment(key@),
        is_base_element(r@),
{
    let scheme = ECIESPoseidonEncryption::<EdwardsParameters>::setup(message);
    let key = Fq::read_le(&key[..]).unwrap();
    let commitment = scheme.generate_symmetric_key_commitment(&key);
    commitment.to_bytes_le().unwrap().try_into().unwrap()
}

/// Encrypts `plaintext` under `key`.
///
/// Calls `ECIESPoseidonEncryption::encrypt` of snarkVM, on the scheme set up from `message`. It
/// never fails. It packs the bits of the plaintext and a mark of the end into elements of the base
/// field, `ELEMENT_CAPACITY` bits to each, and adds a mask to each element that depends on the key
/// alone. Decrypting the result gives the plaintext back.
#[verifier::external_body]
pub(crate) fn encrypt(message: &str, key: &[u8; 32], plaintext: &[u8]) -> (r: Result<
    Vec<u8>,
    EncryptionError,
>)
    requires
        message@ == account_scheme_message(),
        is_base_element(key@),
        plaintext@.len() <= 0xffff,
    ensures
        match r {
            Ok(ciphertext) => {
                &&& ciphertext@ == encryption(key@, plaintext@)
                &&& ciphertext@.len() == 32 * encrypted_elements(plaintext@.len())
                &&& forall|i: int|
                    0 <= i < encrypted_elements(plaintext@.len()) ==> is_base_element(
                        #[trigger] element_at(ciphertext@, i),
                    )
                &&& !is_endless(key@, ciphertext@)
                &&& decryption(key@, ciphertext@) == Some(plaintext@)
            },
            Err(_) => false,
        },
{
    let scheme = ECIESPoseidonEncryption::<EdwardsParameters>::setup(message);
    scheme.encrypt(&Fq::read_le(&key[..]).unwrap(), plaintext)
}

/// Decrypts `ciphertext` under `key`.
///
/// Calls `ECIESPoseidonEncryption::decrypt` of snarkVM, on the scheme set up from `message`. It
/// takes the mask off each element of the ciphertext, and unpacks the bits up to the mark of the
/// end. It fails if an element is not canonical, if the last element is zero, or if the bits do not
/// make up whole bytes.
#[verifier::external_body]
pub(crate) fn decrypt(message: &str, key: &[u8; 32], ciphertext: &[u8]) -> (r: Result<
    Vec<u8>,
    EncryptionError,
>)
    requires
        message@ == account_scheme_message(),
        is_base_element(key@),
        ciphertext@.len() >= 32,
        !is_endless(key@, ciphertext@),
    ensures
        match r {
            Ok(plaintext) => decryption(key@, ciphertext@) == Some(plaintext@),
            Err(_) => decryption(key@, ciphertext@) == None::<Seq<u8>>,
        },
{
    let scheme = ECIESPoseidonEncryption::<EdwardsParameters>::setup(message);
    scheme.decrypt(&Fq::read_le(&key[..]).unwrap(), ciphertext)
}

/// Hashes `input` into a commitment.
///
/// Calls `BHPCRH::hash` of snarkVM, on the scheme of `COMMITMENT_NUM_WINDOWS` windows of
/// `COMMITMENT_WINDOW_SIZE` bits set up from `message`. It fails on an input of more bits than the
/// windows hold. The hash is an element of the base field.
#[verifier::external_body]
pub(crate) fn hash(message: &str, input: &[u8]) -> (r: Result<[u8; 32], CRHError>)
    requires
        message@ == commitment_scheme_message(),
        input@.len() <= 0xffff,
    ensures
        match r {
            Ok(digest) => {
                &&& input@.len() <= COMMITMENT_CAPACITY
                &&& digest@ == commitment_hash(input@)
                &&& is_base_element(digest@)
            },
            Err(_) => input@.len() > COMMITMENT_CAPACITY,
        },
{
    let scheme = BHPCRH::<EdwardsProjective, COMMITMENT_NUM_WINDOWS, COMMITMENT_WINDOW_SIZE>::setup(
        message,
    );
    Ok(scheme.hash(input)?.to_bytes_le().unwrap().try_into().unwrap())
}

/// Evaluates the serial number function at `input`.
///
/// Calls `PoseidonPRF::evaluate` of snarkVM, on the one element `input`. It never fails. The output
/// is an element of the base field.
#[verifier::external_body]
pub(crate) fn evaluate(seed: &[u8; 32], input: &[u8; 32]) -> (r: Result<[u8; 32], PRFError>)
    requires
        is_base_element(seed@),
        is_base_element(input@),
    ensures
        match r {
            Ok(output) => output@ == pseudo_random(seed@, input@) && is_base_element(output@),
            Err(_) => false,
        },
{
    let seed = Fq::read_le(&seed[..]).unwrap();
    let input = vec![Fq::read_le(&input[..]).unwrap()];
    let output = PoseidonPRF::<Fq, 4, false>::evaluate(&seed, &input)?;
    Ok(output.to_bytes_le().unwrap().try_into().unwrap())
}

/// Returns the generator raised to `scalar`.
///
/// Calls `AleoSignatureScheme::g_scalar_multiply` of snarkVM, on the scheme set up from `message`.
/// The result is an element of the prime-order subgroup.
#[verifier::external_body]
pub(crate) fn raise_generator(message: &str, scalar: &[u8; 32]) -> (r: [u8; 32])
    requires
        message@ == account_scheme_message(),
        is_scalar(scalar@),
    ensures
        r@ == generator_power(scalar@),
        is_public_key(r@),
{
    let scheme = AleoSignatureScheme::<EdwardsParameters>::setup(message);
    let power = scheme.g_scalar_multiply(&Fr::read_le(&scalar[..]).unwrap());
    power.to_x_coordinate().to_bytes_le().unwrap().try_into().unwrap()
}

/// Returns the sum of `a` and `b`.
///
/// Calls the addition of `Affine` of snarkVM, for the Edwards curve over BLS12-377. The sum of two
/// elements of the prime-order subgroup is one too.
#[verifier::external_body]
pub(crate) fn add_elements(a: &[u8; 32], b: &[u8; 32]) -> (r: [u8; 32])
    requires
        is_public_key(a@),
        is_public_key(b@),
    ensures
        r@ == group_sum(a@, b@),
        is_public_key(r@),
{
    let a = ECIESPoseidonPublicKey::<EdwardsParameters>::read_le(&a[..]).unwrap().0;
    let b = ECIESPoseidonPublicKey::<EdwardsParameters>::read_le(&b[..]).unwrap().0;
    (a + b).to_x_coordinate().to_bytes_le().unwrap().try_into().unwrap()
}

} // verus!
