use rand::rngs::StdRng;
use rand::SeedableRng;
use record::account::Address;
use record::amount::AleoAmount;
use record::element::{AccountViewKey, ProgramId};
use record::error::RecordError;
use record::payload::Payload;
use record::plaintext::{join, split_parts};
use record::record::Record;

fn address(seed: u8) -> Address {
    let mut bytes = [0u8; 32];
    bytes[0] = seed;
    Address::from_view_key(&AccountViewKey::read_le(&bytes).unwrap())
}

fn program_id(byte: u8) -> ProgramId {
    let mut bytes = [0u8; 48];
    bytes[0] = byte;
    ProgramId::read_le(&bytes).unwrap()
}

fn payload(byte: u8) -> Payload {
    Payload::read_le(&[byte; 128]).unwrap()
}

#[test]
fn plaintext_of_a_dummy() {
    let owner = address(3);
    let parts = Record::encode_plaintext(owner, AleoAmount::zero(), &None, None).unwrap();
    assert_eq!(parts, vec![owner.encoding().to_vec(), vec![1], vec![0; 8]]);
    assert_eq!(join(&parts).len(), 41);
    assert_eq!(
        Record::decode_plaintext(&parts, &None),
        Ok((owner, AleoAmount::zero(), None)),
    );
}

#[test]
fn plaintext_with_a_payload() {
    let owner = address(3);
    let value = AleoAmount::from_i64(0x0102030405060708);
    let parts =
        Record::encode_plaintext(owner, value, &Some(payload(9)), Some(program_id(1))).unwrap();
    assert_eq!(
        parts,
        vec![
            owner.encoding().to_vec(),
            vec![0],
            vec![8, 7, 6, 5, 4, 3, 2, 1],
            vec![9; 128],
        ],
    );
    assert_eq!(join(&parts).len(), 169);
    assert_eq!(
        Record::decode_plaintext(&parts, &Some(program_id(1))),
        Ok((owner, value, Some(payload(9)))),
    );
}

#[test]
fn every_kind_of_contents_is_no_dummy() {
    let zero = AleoAmount::zero();
    let one = AleoAmount::from_i64(1);
    let flag = |value, payload, program_id| {
        Record::encode_plaintext(address(1), value, &payload, program_id).unwrap()[1].clone()
    };
    assert_eq!(flag(zero, None, None), vec![1]);
    assert_eq!(flag(one, None, None), vec![0]);
    assert_eq!(flag(zero, Some(payload(0)), None), vec![0]);
    assert_eq!(flag(zero, None, Some(program_id(0))), vec![0]);
}

#[test]
fn a_dummy_of_a_program_is_refused() {
    let parts = Record::encode_plaintext(address(1), AleoAmount::zero(), &None, None).unwrap();
    assert_eq!(
        Record::decode_plaintext(&parts, &Some(program_id(5))),
        Err(RecordError::IncorrectDummyFlag),
    );
    let parts =
        Record::encode_plaintext(address(1), AleoAmount::zero(), &None, Some(program_id(5)))
            .unwrap();
    assert_eq!(
        Record::decode_plaintext(&parts, &None),
        Err(RecordError::IncorrectDummyFlag),
    );
}

#[test]
fn the_program_matters_to_nothing_but_the_flag() {
    let one = AleoAmount::from_i64(1);
    let parts = Record::encode_plaintext(address(1), one, &None, None).unwrap();
    assert_eq!(
        Record::decode_plaintext(&parts, &Some(program_id(5))),
        Ok((address(1), one, None)),
    );
}

#[test]
fn a_flag_other_than_zero_and_one_is_refused() {
    let mut parts = Record::encode_plaintext(address(1), AleoAmount::zero(), &None, None).unwrap();
    parts[1] = vec![2];
    assert_eq!(
        Record::decode_plaintext(&parts, &None),
        Err(RecordError::IncorrectDummyFlag),
    );
}

#[test]
fn other_numbers_of_parts_are_refused() {
    let parts =
        Record::encode_plaintext(address(1), AleoAmount::zero(), &Some(payload(1)), None).unwrap();
    for len in 0..3 {
        assert_eq!(
            Record::decode_plaintext(&parts[..len], &None),
            Err(RecordError::InvalidPlaintextSize),
        );
    }
    let mut parts = parts;
    parts.push(vec![]);
    assert_eq!(
        Record::decode_plaintext(&parts, &None),
        Err(RecordError::InvalidPlaintextSize),
    );
}

#[test]
fn short_parts_are_refused_and_long_ones_are_cut() {
    let owner = address(1);
    let value = AleoAmount::from_i64(-1);
    let parts = Record::encode_plaintext(owner, value, &Some(payload(1)), None).unwrap();
    for i in 0..4 {
        let mut short = parts.clone();
        short[i].pop();
        assert_eq!(
            Record::decode_plaintext(&short, &None),
            Err(RecordError::UnexpectedEof),
        );
        let mut long = parts.clone();
        long[i].push(77);
        assert_eq!(
            Record::decode_plaintext(&long, &None),
            Ok((owner, value, Some(payload(1)))),
        );
    }
}

#[test]
fn an_owner_off_the_curve_is_refused() {
    let mut parts = Record::encode_plaintext(address(1), AleoAmount::zero(), &None, None).unwrap();
    parts[0] = vec![255; 32];
    // The owner is read first, so that the other parts do not matter.
    parts[1] = vec![];
    assert_eq!(
        Record::decode_plaintext(&parts, &None),
        Err(RecordError::InvalidAddress),
    );
}

#[test]
fn the_size_limit_is_inclusive() {
    let fits = vec![vec![0u8; 65534], vec![], vec![1u8]];
    assert_eq!(Record::within_size_limit(fits.clone()), Ok(fits));
    let too_large = vec![vec![0u8; 65534], vec![], vec![1u8; 2]];
    assert_eq!(
        Record::within_size_limit(too_large),
        Err(RecordError::RecordTooLarge(3)),
    );
}

#[test]
fn plaintexts_are_split_where_they_were_joined() {
    let parts =
        Record::encode_plaintext(address(7), AleoAmount::from_i64(3), &Some(payload(2)), None)
            .unwrap();
    assert_eq!(split_parts(&join(&parts)), parts);
    let parts = Record::encode_plaintext(address(7), AleoAmount::zero(), &None, None).unwrap();
    assert_eq!(split_parts(&join(&parts)), parts);
}

#[test]
fn splits_of_other_lengths() {
    let bytes: Vec<u8> = (0..50).collect();
    assert_eq!(split_parts(&bytes[..0]), vec![vec![0u8; 0]]);
    assert_eq!(split_parts(&bytes[..32]), vec![bytes[..32].to_vec()]);
    assert_eq!(
        split_parts(&bytes[..33]),
        vec![bytes[..32].to_vec(), vec![32]],
    );
    assert_eq!(
        split_parts(&bytes[..34]),
        vec![bytes[..32].to_vec(), vec![32], vec![33]],
    );
    assert_eq!(
        split_parts(&bytes),
        vec![
            bytes[..32].to_vec(),
            vec![32],
            bytes[33..41].to_vec(),
            bytes[41..].to_vec(),
        ],
    );
}

#[test]
fn amounts_are_read_back() {
    for value in [0, 1, -1, 255, 256, -256, i64::MAX, i64::MIN] {
        let amount = AleoAmount::from_i64(value);
        let mut bytes = Vec::new();
        amount.write_le(&mut bytes);
        assert_eq!(bytes, value.to_le_bytes());
        assert_eq!(AleoAmount::read_le(&bytes), Ok(amount));
        assert_eq!(amount.is_zero(), value == 0);
    }
    assert_eq!(AleoAmount::read_le(&[0; 7]), Err(RecordError::UnexpectedEof));
}

#[test]
fn payloads_of_any_bytes_are_read_back() {
    let rng = &mut StdRng::seed_from_u64(5);
    let mut bytes = [0u8; 128];
    rand::RngCore::fill_bytes(rng, &mut bytes);
    let read = Payload::read_le(&bytes).unwrap();
    assert_eq!(read.encoding(), bytes);
    assert_eq!(Payload::read_le(&bytes[..127]), Err(RecordError::UnexpectedEof));
}
