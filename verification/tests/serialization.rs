use rand::rngs::StdRng;
use rand::{thread_rng, Rng, RngCore, SeedableRng};
use record::account::Address;
use record::amount::AleoAmount;
use record::element::{AccountViewKey, FieldElement, ProgramId};
use record::error::RecordError;
use record::payload::Payload;
use record::record::Record;
use record::testnet2::RECORD_PAYLOAD_SIZE_IN_BYTES;
use serde_json::Value;

fn fresh_rng() -> StdRng {
    StdRng::from_rng(thread_rng()).unwrap()
}

fn fresh_view_key(rng: &mut StdRng) -> AccountViewKey {
    loop {
        let mut bytes = [0u8; 32];
        rng.fill_bytes(&mut bytes);
        bytes[31] &= 7;
        if let Ok(key) = AccountViewKey::read_le(&bytes) {
            return key;
        }
    }
}

fn fresh_address(rng: &mut StdRng) -> Address {
    Address::from_view_key(&fresh_view_key(rng))
}

fn bytes_to_value(bytes: &[u8]) -> Value {
    serde_json::to_value(bytes.to_vec()).unwrap()
}

fn value_to_bytes(value: &Value) -> Vec<u8> {
    serde_json::from_value(value.clone()).unwrap()
}

fn to_json(record: &Record) -> String {
    let mut object = serde_json::Map::new();
    object.insert("owner".to_string(), bytes_to_value(&record.owner().encoding()));
    object.insert("value".to_string(), Value::from(record.value().as_i64()));
    object.insert(
        "payload".to_string(),
        match record.payload() {
            Some(payload) => bytes_to_value(&payload.encoding()),
            None => Value::Null,
        },
    );
    object.insert(
        "program_id".to_string(),
        match record.program_id() {
            Some(program_id) => bytes_to_value(&program_id.encoding()),
            None => Value::Null,
        },
    );
    object.insert("randomizer".to_string(), bytes_to_value(&record.randomizer().encoding()));
    object.insert(
        "record_view_key".to_string(),
        bytes_to_value(&record.record_view_key().encoding()),
    );
    object.insert("commitment".to_string(), bytes_to_value(&record.commitment().encoding()));
    serde_json::to_string(&Value::Object(object)).unwrap()
}

fn from_json(text: &str) -> Result<Record, RecordError> {
    let value: Value = serde_json::from_str(text).unwrap();
    let payload = match &value["payload"] {
        Value::Null => None,
        bytes => Some(Payload::read_le(&value_to_bytes(bytes))?),
    };
    let program_id = match &value["program_id"] {
        Value::Null => None,
        bytes => Some(ProgramId::read_le(&value_to_bytes(bytes))?),
    };
    Record::from_committed(
        Address::read_le(&value_to_bytes(&value["owner"]))?,
        AleoAmount::from_i64(value["value"].as_i64().unwrap()),
        payload,
        program_id,
        FieldElement::read_le(&value_to_bytes(&value["randomizer"]))?,
        FieldElement::read_le(&value_to_bytes(&value["record_view_key"]))?,
        FieldElement::read_le(&value_to_bytes(&value["commitment"]))?,
    )
}

#[test]
fn test_serde_json_noop() {
    let rng = &mut fresh_rng();
    let address = fresh_address(rng);

    // Noop record
    let expected_record = Record::new_noop(address, rng).unwrap();

    // Serialize
    let expected_string = to_json(&expected_record);
    let candidate_string = to_json(&expected_record.clone());
    assert_eq!(expected_string, candidate_string);

    // Deserialize
    assert_eq!(expected_record, from_json(&candidate_string).unwrap());
    assert_eq!(expected_record, from_json(&expected_string).unwrap());
}

#[test]
fn test_serde_json() {
    let rng = &mut fresh_rng();
    let address = fresh_address(rng);

    // Output record
    let mut payload = [0u8; RECORD_PAYLOAD_SIZE_IN_BYTES];
    rng.fill(&mut payload);
    let expected_record = Record::new(
        address,
        AleoAmount::from_i64(1234),
        Some(Payload::read_le(&payload).unwrap()),
        None,
        rng,
    )
    .unwrap();

    // Serialize
    let expected_string = to_json(&expected_record);
    let candidate_string = to_json(&expected_record.clone());
    assert_eq!(expected_string, candidate_string);

    // Deserialize
    assert_eq!(expected_record, from_json(&candidate_string).unwrap());
    assert_eq!(expected_record, from_json(&expected_string).unwrap());
}

#[test]
fn test_bincode_noop() {
    let rng = &mut fresh_rng();
    let address = fresh_address(rng);

    // Noop record
    let expected_record = Record::new_noop(address, rng).unwrap();

    // Serialize
    let expected_bytes = expected_record.to_bytes_le().unwrap();
    let candidate_bytes = bincode::serialize(&expected_bytes).unwrap();
    assert_eq!(&expected_bytes[..], &candidate_bytes[8..]);

    // Deserialize
    assert_eq!(expected_record, Record::read_le(&expected_bytes[..]).unwrap());
    let bytes: Vec<u8> = bincode::deserialize(&candidate_bytes[..]).unwrap();
    assert_eq!(expected_record, Record::read_le(&bytes).unwrap());
}

#[test]
fn test_bincode() {
    let rng = &mut fresh_rng();
    let address = fresh_address(rng);

    // Output record
    let mut payload = [0u8; RECORD_PAYLOAD_SIZE_IN_BYTES];
    rng.fill(&mut payload);
    let expected_record = Record::new(
        address,
        AleoAmount::from_i64(1234),
        Some(Payload::read_le(&payload).unwrap()),
        None,
        rng,
    )
    .unwrap();

    // Serialize
    let expected_bytes = expected_record.to_bytes_le().unwrap();
    let candidate_bytes = bincode::serialize(&expected_bytes).unwrap();
    assert_eq!(&expected_bytes[..], &candidate_bytes[8..]);

    // Deserialize
    assert_eq!(expected_record, Record::read_le(&expected_bytes[..]).unwrap());
    let bytes: Vec<u8> = bincode::deserialize(&candidate_bytes[..]).unwrap();
    assert_eq!(expected_record, Record::read_le(&bytes).unwrap());
}

fn program_id(byte: u8) -> ProgramId {
    let mut bytes = [0u8; 48];
    bytes[0] = byte;
    ProgramId::read_le(&bytes).unwrap()
}

#[test]
fn encoding_lays_out_the_ingredients() {
    let rng = &mut fresh_rng();
    let record = Record::new(
        fresh_address(rng),
        AleoAmount::from_i64(-2),
        Some(Payload::read_le(&[9u8; 128]).unwrap()),
        Some(program_id(7)),
        rng,
    )
    .unwrap();
    let mut expected = record.owner().encoding().to_vec();
    expected.extend_from_slice(&[254, 255, 255, 255, 255, 255, 255, 255]);
    expected.push(1);
    expected.extend_from_slice(&[9u8; 128]);
    expected.push(1);
    expected.extend_from_slice(&program_id(7).encoding());
    expected.extend_from_slice(&record.randomizer().encoding());
    expected.extend_from_slice(&record.record_view_key().encoding());
    let mut written = vec![42u8];
    record.write_le(&mut written).unwrap();
    assert_eq!(written[0], 42);
    assert_eq!(written[1..], expected[..]);

    // What follows the encoding does not matter.
    written.push(3);
    assert_eq!(record, Record::read_le(&written[1..]).unwrap());
}

#[test]
fn noop_encoding_has_no_optional_values() {
    let rng = &mut fresh_rng();
    let record = Record::new_noop(fresh_address(rng), rng).unwrap();
    let bytes = record.to_bytes_le().unwrap();
    assert_eq!(bytes.len(), 32 + 8 + 1 + 1 + 32 + 32);
    assert_eq!(bytes[32..42], [0u8; 10]);
}

#[test]
fn truncated_encodings_are_refused() {
    let rng = &mut fresh_rng();
    let record = Record::new(
        fresh_address(rng),
        AleoAmount::from_i64(i64::MIN),
        Some(Payload::read_le(&[1u8; 128]).unwrap()),
        Some(program_id(1)),
        rng,
    )
    .unwrap();
    let bytes = record.to_bytes_le().unwrap();
    for len in 0..bytes.len() {
        assert_eq!(Record::read_le(&bytes[..len]), Err(RecordError::UnexpectedEof));
    }
}

#[test]
fn damaged_encodings_are_refused() {
    let rng = &mut fresh_rng();
    let record = Record::new(
        fresh_address(rng),
        AleoAmount::from_i64(5),
        Some(Payload::read_le(&[1u8; 128]).unwrap()),
        Some(program_id(1)),
        rng,
    )
    .unwrap();
    let bytes = record.to_bytes_le().unwrap();

    let mut damaged = bytes.clone();
    damaged[31] = 255;
    assert_eq!(Record::read_le(&damaged), Err(RecordError::InvalidAddress));

    let mut damaged = bytes.clone();
    damaged[40] = 2;
    assert_eq!(Record::read_le(&damaged), Err(RecordError::InvalidFlag));

    let mut damaged = bytes.clone();
    damaged[169] = 255;
    assert_eq!(Record::read_le(&damaged), Err(RecordError::InvalidFlag));

    let mut damaged = bytes.clone();
    damaged[170 + 47] = 255;
    assert_eq!(Record::read_le(&damaged), Err(RecordError::InvalidProgramId));

    let mut damaged = bytes.clone();
    damaged[218 + 31] = 255;
    assert_eq!(Record::read_le(&damaged), Err(RecordError::InvalidFieldElement));

    let mut damaged = bytes.clone();
    damaged[250 + 31] = 255;
    assert_eq!(Record::read_le(&damaged), Err(RecordError::InvalidFieldElement));
}

#[test]
fn another_commitment_is_refused() {
    let rng = &mut fresh_rng();
    let record = Record::new(
        fresh_address(rng),
        AleoAmount::from_i64(77),
        None,
        Some(program_id(3)),
        rng,
    )
    .unwrap();
    let claimed = FieldElement::default();
    assert_eq!(
        Record::from_committed(
            record.owner(),
            record.value(),
            *record.payload(),
            record.program_id(),
            record.randomizer(),
            *record.record_view_key(),
            claimed,
        ),
        Err(RecordError::InvalidCommitment(claimed, record.commitment())),
    );
    assert_eq!(from_json(&to_json(&record)).unwrap(), record);
}

/// Reads a record off a stream, and tells how far each step went.
fn read_steps(stream: &[u8]) -> (Vec<usize>, Result<Record, RecordError>) {
    let mut steps = Vec::new();
    let mut taken = 0;
    loop {
        let missing = Record::missing_bytes(&stream[..taken]);
        if missing == 0 {
            return (steps, Record::read_le(&stream[..taken]));
        }
        steps.push(missing);
        taken += missing;
    }
}

#[test]
fn streams_are_read_part_by_part() {
    let rng = &mut fresh_rng();
    let record = Record::new(
        fresh_address(rng),
        AleoAmount::from_i64(1),
        Some(Payload::read_le(&[2u8; 128]).unwrap()),
        Some(program_id(3)),
        rng,
    )
    .unwrap();
    let mut stream = record.to_bytes_le().unwrap();
    let len = stream.len();
    stream.extend_from_slice(&[7u8; 100]);
    let (steps, read) = read_steps(&stream);
    assert_eq!(steps, vec![32, 8, 1, 128, 1, 48, 32, 32]);
    assert_eq!(steps.iter().sum::<usize>(), len);
    assert_eq!(read, Ok(record));

    let noop = Record::new_noop(fresh_address(rng), rng).unwrap();
    let mut stream = noop.to_bytes_le().unwrap();
    stream.push(1);
    assert_eq!(read_steps(&stream), (vec![32, 8, 1, 1, 32, 32], Ok(noop)));
}

#[test]
fn streams_are_read_up_to_the_damage() {
    let rng = &mut fresh_rng();
    let record = Record::new_noop(fresh_address(rng), rng).unwrap();
    let bytes = record.to_bytes_le().unwrap();

    let mut damaged = bytes.clone();
    damaged[31] = 255;
    assert_eq!(read_steps(&damaged), (vec![32], Err(RecordError::InvalidAddress)));

    let mut damaged = bytes.clone();
    damaged[40] = 9;
    assert_eq!(read_steps(&damaged), (vec![32, 8, 1], Err(RecordError::InvalidFlag)));

    // A part that has been begun is read to its end.
    assert_eq!(Record::missing_bytes(&bytes[..35]), 5);
    assert_eq!(Record::missing_bytes(&bytes[..43]), 31);
    assert_eq!(Record::missing_bytes(&bytes[..105]), 1);
    assert_eq!(Record::missing_bytes(&bytes), 0);
}
