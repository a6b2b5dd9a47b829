//! Records as byte strings.

use vstd::prelude::*;
use vstd::slice::slice_subrange;

use crate::account::{address_read, is_address, Address};
use crate::amount::{
    amount_bytes, amount_read, law_amount_bytes_are_digits, law_amount_read_gives_back,
    law_amount_read_is_canonical, AleoAmount,
};
use crate::element::{
    field_element_read, program_id_read, viewed, FieldElement, ProgramId, RecordRandomizer,
    RecordViewKey,
};
use crate::error::RecordError;
use crate::payload::{payload_read, Payload};
use crate::plaintext::{byte_read, flag_byte};
use crate::record::{law_ingredients_are_kept, Ingredients, Record, RecordView};
use crate::schemes::{is_base_element, is_program_element, is_public_key};
use crate::testnet2::RECORD_PAYLOAD_SIZE_IN_BYTES;

verus! {

/// The encoding of an optional value: a flag that tells whether it is present, and the value.
pub open spec fn optional_bytes(value: Option<Seq<u8>>) -> Seq<u8> {
    match value {
        Some(bytes) => seq![flag_byte(true)] + bytes,
        None => seq![flag_byte(false)],
    }
}

/// What reading an optional value off the front of `bytes` comes to, if reading the value after
/// the flag comes to `value`.
pub open spec fn optional_read(
    bytes: Seq<u8>,
    value: Result<Seq<u8>, RecordError>,
) -> Result<Option<Seq<u8>>, RecordError> {
    match byte_read(bytes) {
        Err(e) => Err(e),
        Ok(flag) => if flag == flag_byte(false) {
            Ok(None)
        } else if flag == flag_byte(true) {
            match value {
                Ok(value) => Ok(Some(value)),
                Err(e) => Err(e),
            }
        } else {
            Err(RecordError::InvalidFlag)
        },
    }
}

/// What reading an optional payload off the front of `bytes` comes to.
pub open spec fn optional_payload_read(bytes: Seq<u8>) -> Result<Option<Seq<u8>>, RecordError> {
    optional_read(bytes, payload_read(bytes.skip(1)))
}

/// What reading an optional program identifier off the front of `bytes` comes to.
pub open spec fn optional_program_id_read(bytes: Seq<u8>) -> Result<Option<Seq<u8>>, RecordError> {
    optional_read(bytes, program_id_read(bytes.skip(1)))
}

impl Ingredients {
    /// The ingredients are those of some record.
    pub open spec fn are_valid(self) -> bool {
        &&& is_address(self.owner)
        &&& self.payload matches Some(payload) ==> payload.len() == RECORD_PAYLOAD_SIZE_IN_BYTES
        &&& self.program_id matches Some(program_id) ==> is_program_element(program_id)
        &&& is_base_element(self.randomizer)
        &&& is_base_element(self.record_view_key)
    }

    /// The encoding of the ingredients.
    pub open spec fn bytes(self) -> Seq<u8> {
        self.owner + amount_bytes(self.value) + optional_bytes(self.payload) + optional_bytes(
            self.program_id,
        ) + self.randomizer + self.record_view_key
    }
}

/// What reading the ingredients of a record off the front of `bytes` comes to.
pub open spec fn ingredients_read(bytes: Seq<u8>) -> Result<Ingredients, RecordError> {
    match address_read(bytes) {
        Err(e) => Err(e),
        Ok(owner) => {
            let rest = bytes.skip(32);
            match amount_read(rest) {
                Err(e) => Err(e),
                Ok(value) => {
                    let rest = rest.skip(8);
                    match optional_payload_read(rest) {
                        Err(e) => Err(e),
                        Ok(payload) => {
                            let rest = rest.skip(optional_bytes(payload).len() as int);
                            match optional_program_id_read(rest) {
                                Err(e) => Err(e),
                                Ok(program_id) => {
                                    let rest = rest.skip(optional_bytes(program_id).len() as int);
                                    match (
                                        field_element_read(rest),
                                        field_element_read(rest.skip(32)),
                                    ) {
                                        (Err(e), _) => Err(e),
                                        (_, Err(e)) => Err(e),
                                        (Ok(randomizer), Ok(record_view_key)) => Ok(
                                            Ingredients {
                                                owner,
                                                value,
                                                payload,
                                                program_id,
                                                randomizer,
                                                record_view_key,
                                            },
                                        ),
                                    }
                                },
                            }
                        },
                    }
                },
            }
        },
    }
}

/// What reading a record off the front of `bytes` comes to.
pub open spec fn record_read(bytes: Seq<u8>) -> Result<RecordView, RecordError> {
    match ingredients_read(bytes) {
        Err(e) => Err(e),
        Ok(ingredients) => Ok(ingredients.record()),
    }
}

/// The end of the first part of a record that `bytes` do not hold in full. The parts are an owner,
/// a value, an optional payload and an optional program identifier, each of them after a flag, and
/// two field elements.
pub open spec fn part_end(bytes: Seq<u8>) -> nat {
    let len = bytes.len();
    let after_payload = if bytes[40] == flag_byte(true) {
        (41 + RECORD_PAYLOAD_SIZE_IN_BYTES) as nat
    } else {
        41
    };
    let after_program_id = if bytes[after_payload as int] == flag_byte(true) {
        after_payload + 49
    } else {
        after_payload + 1
    };
    if len < 32 {
        32
    } else if len < 40 {
        40
    } else if len < 41 {
        41
    } else if len < after_payload {
        after_payload
    } else if len == after_payload {
        after_payload + 1
    } else if len < after_program_id {
        after_program_id
    } else if len < after_program_id + 32 {
        after_program_id + 32
    } else {
        after_program_id + 64
    }
}

/// How many more bytes the read of a record needs that has come to the end of `bytes`, to go on to
/// the end of the part it is in: none if it has come to a result.
pub open spec fn bytes_missing(bytes: Seq<u8>) -> int {
    if ingredients_read(bytes) == Err::<Ingredients, RecordError>(RecordError::UnexpectedEof) {
        part_end(bytes) - bytes.len()
    } else {
        0
    }
}

/// The ingredients of a record are valid if they have the sizes and ranges of what they stand for.
pub proof fn law_valid_ingredients_are_in_range(ingredients: Ingredients)
    ensures
        ingredients.are_valid() <==> {
            let Ingredients { owner, payload, program_id, randomizer, record_view_key, .. } =
                ingredients;
            &&& owner.len() == 32 && is_public_key(owner)
            &&& payload is Some ==> payload->0.len() == 128
            &&& program_id is Some ==> is_program_element(program_id->0)
            &&& is_base_element(randomizer)
            &&& is_base_element(record_view_key)
        },
{
}

/// The encoding of a record is, one after the other: its owner, in 32 bytes; its value, in eight;
/// a byte that is one if it has a payload and zero otherwise, and the payload, in 128; a byte that
/// is one if it has a program and zero otherwise, and the program, in 48; its randomizer and its
/// view key, in 32 bytes each.
#[verifier::rlimit(30)]
pub proof fn law_encoding_lays_out_the_ingredients(ingredients: Ingredients)
    requires
        ingredients.are_valid(),
    ensures
        ({
            let Ingredients { owner, value, payload, program_id, randomizer, record_view_key } =
                ingredients;
            let bytes = ingredients.bytes();
            let at_program_id = if payload is Some {
                169int
            } else {
                41int
            };
            let at_randomizer = at_program_id + if program_id is Some {
                49int
            } else {
                1int
            };
            &&& bytes.len() == at_randomizer + 64
            &&& bytes.take(32) == owner
            &&& bytes.subrange(32, 40) == amount_bytes(value)
            &&& bytes[40] == if payload is Some {
                1u8
            } else {
                0u8
            }
            &&& payload is Some ==> bytes.subrange(41, 169) == payload->0
            &&& bytes[at_program_id] == if program_id is Some {
                1u8
            } else {
                0u8
            }
            &&& program_id is Some ==> bytes.subrange(at_program_id + 1, at_program_id + 49)
                == program_id->0
            &&& bytes.subrange(at_randomizer, at_randomizer + 32) == randomizer
            &&& bytes.skip(at_randomizer + 32) == record_view_key
        }),
{
    let Ingredients { owner, value, payload, program_id, randomizer, record_view_key } =
        ingredients;
    let bytes = ingredients.bytes();
    law_amount_bytes_are_digits(value);
    let at_program_id = if payload is Some {
        169int
    } else {
        41int
    };
    let at_randomizer = at_program_id + if program_id is Some {
        49int
    } else {
        1int
    };
    assert(bytes.take(32) =~= owner);
    assert(bytes.subrange(32, 40) =~= amount_bytes(value));
    if payload is Some {
        assert(bytes.subrange(41, 169) =~= payload->0);
    }
    if program_id is Some {
        assert(bytes.subrange(at_program_id + 1, at_program_id + 49) =~= program_id->0);
    }
    assert(bytes.subrange(at_randomizer, at_randomizer + 32) =~= randomizer);
    assert(bytes.skip(at_randomizer + 32) =~= record_view_key);
}

/// What ingredients are read from is looked at from front to back: a part that is not there in full
/// is missed, a flag that is neither zero nor one is refused, and so is a part out of its range. The
/// ingredients of a record are read if there is nothing of that.
#[verifier::rlimit(30)]
pub proof fn law_ingredients_are_refused_for_a_reason(bytes: Seq<u8>)
    ensures
        ({
            let read = ingredients_read(bytes);
            let len = bytes.len();
            let at_program_id = if bytes[40] == 1u8 {
                169int
            } else {
                41int
            };
            let at_randomizer = at_program_id + if bytes[at_program_id] == 1u8 {
                49int
            } else {
                1int
            };
            if len < 32 {
                read == Err::<Ingredients, RecordError>(RecordError::UnexpectedEof)
            } else if !is_public_key(bytes.take(32)) {
                read == Err::<Ingredients, RecordError>(RecordError::InvalidAddress)
            } else if len < 41 {
                read == Err::<Ingredients, RecordError>(RecordError::UnexpectedEof)
            } else if bytes[40] > 1 {
                read == Err::<Ingredients, RecordError>(RecordError::InvalidFlag)
            } else if len < at_program_id + 1 {
                read == Err::<Ingredients, RecordError>(RecordError::UnexpectedEof)
            } else if bytes[at_program_id] > 1 {
                read == Err::<Ingredients, RecordError>(RecordError::InvalidFlag)
            } else if len < at_randomizer {
                read == Err::<Ingredients, RecordError>(RecordError::UnexpectedEof)
            } else if bytes[at_program_id] == 1 && !is_program_element(
                bytes.subrange(at_program_id + 1, at_program_id + 49),
            ) {
                read == Err::<Ingredients, RecordError>(RecordError::InvalidProgramId)
            } else if len < at_randomizer + 32 {
                read == Err::<Ingredients, RecordError>(RecordError::UnexpectedEof)
            } else if !is_base_element(bytes.subrange(at_randomizer, at_randomizer + 32)) {
                read == Err::<Ingredients, RecordError>(RecordError::InvalidFieldElement)
            } else if len < at_randomizer + 64 {
                read == Err::<Ingredients, RecordError>(RecordError::UnexpectedEof)
            } else if !is_base_element(bytes.subrange(at_randomizer + 32, at_randomizer + 64)) {
                read == Err::<Ingredients, RecordError>(RecordError::InvalidFieldElement)
            } else {
                read is Ok
            }
        }),
{
    let at_program_id = if bytes[40] == 1u8 {
        169int
    } else {
        41int
    };
    let at_randomizer = at_program_id + if bytes[at_program_id] == 1u8 {
        49int
    } else {
        1int
    };
    if bytes.len() >= 41 {
        let rest = bytes.skip(32).skip(8);
        assert(rest =~= bytes.skip(40));
        if bytes.len() >= at_program_id + 1 {
            assert(rest.skip(at_program_id - 40) =~= bytes.skip(at_program_id));
            if bytes.len() >= at_randomizer {
                let rest = bytes.skip(at_program_id);
                if bytes[at_program_id] == 1 {
                    assert(rest.skip(1).take(48) =~= bytes.subrange(
                        at_program_id + 1,
                        at_program_id + 49,
                    ));
                }
                assert(rest.skip(at_randomizer - at_program_id) =~= bytes.skip(at_randomizer));
                let rest = bytes.skip(at_randomizer);
                if rest.len() >= 32 {
                    assert(rest.take(32) =~= bytes.subrange(at_randomizer, at_randomizer + 32));
                }
                if rest.len() >= 64 {
                    assert(rest.skip(32).take(32) =~= bytes.subrange(
                        at_randomizer + 32,
                        at_randomizer + 64,
                    ));
                }
            }
        }
    }
}

/// A record is read if and only if its ingredients are, and it is the one that is made from them.
pub proof fn law_record_is_made_from_what_is_read(bytes: Seq<u8>)
    ensures
        match (ingredients_read(bytes), record_read(bytes)) {
            (Ok(ingredients), Ok(record)) => record == ingredients.record(),
            (Err(a), Err(b)) => a == b,
            _ => false,
        },
{
}

/// The ingredients of a record are read back from their encoding, and nothing that follows
/// matters.
#[verifier::rlimit(30)]
pub proof fn law_ingredients_read_gives_back(ingredients: Ingredients, rest: Seq<u8>)
    requires
        ingredients.are_valid(),
    ensures
        ingredients_read(ingredients.bytes() + rest) == Ok::<Ingredients, RecordError>(ingredients),
{
    let Ingredients { owner, value, payload, program_id, randomizer, record_view_key } =
        ingredients;
    let at_key = record_view_key + rest;
    let at_randomizer = randomizer + at_key;
    let at_program_id = optional_bytes(program_id) + at_randomizer;
    let at_payload = optional_bytes(payload) + at_program_id;
    let at_value = amount_bytes(value) + at_payload;
    let bytes = ingredients.bytes() + rest;
    assert(bytes =~= owner + at_value);
    assert(bytes.take(32) =~= owner);
    assert(bytes.skip(32) =~= at_value);
    law_amount_read_gives_back(value, at_payload);
    assert(at_value.skip(8) =~= at_payload);
    assert(at_payload.skip(optional_bytes(payload).len() as int) =~= at_program_id);
    if let Some(payload) = payload {
        assert(at_payload.skip(1).take(RECORD_PAYLOAD_SIZE_IN_BYTES as int) =~= payload);
    }
    assert(at_program_id.skip(optional_bytes(program_id).len() as int) =~= at_randomizer);
    if let Some(program_id) = program_id {
        assert(at_program_id.skip(1).take(48) =~= program_id);
    }
    assert(at_randomizer.take(32) =~= randomizer);
    assert(at_randomizer.skip(32) =~= at_key);
    assert(at_key.take(32) =~= record_view_key);
}

/// What the ingredients of a record were read from is their encoding.
#[verifier::rlimit(30)]
pub proof fn law_ingredients_read_is_canonical(bytes: Seq<u8>)
    requires
        ingredients_read(bytes) is Ok,
    ensures
        ingredients_read(bytes)->Ok_0.are_valid(),
        ingredients_read(bytes)->Ok_0.bytes().is_prefix_of(bytes),
{
    let ingredients = ingredients_read(bytes)->Ok_0;
    let Ingredients { owner, value, payload, program_id, randomizer, record_view_key } =
        ingredients;
    let at_value = bytes.skip(32);
    let at_payload = at_value.skip(8);
    let at_program_id = at_payload.skip(optional_bytes(payload).len() as int);
    let at_randomizer = at_program_id.skip(optional_bytes(program_id).len() as int);
    let at_key = at_randomizer.skip(32);
    let rest = at_key.skip(32);
    law_amount_read_is_canonical(at_value);
    assert(at_key =~= record_view_key + rest);
    assert(at_randomizer =~= randomizer + at_key);
    assert(at_program_id =~= optional_bytes(program_id) + at_randomizer);
    assert(at_payload =~= optional_bytes(payload) + at_program_id);
    assert(at_value =~= amount_bytes(value) + at_payload);
    assert(bytes =~= owner + at_value);
    assert(bytes =~= ingredients.bytes() + rest);
}

/// A record that was made from its ingredients is read back from its encoding.
pub proof fn law_record_read_gives_back(record: RecordView, rest: Seq<u8>)
    requires
        record.ingredients().are_valid(),
        record == record.ingredients().record(),
    ensures
        record_read(record.ingredients().bytes() + rest) == Ok::<RecordView, RecordError>(record),
{
    law_ingredients_read_gives_back(record.ingredients(), rest);
}

/// A record that is read was made from its ingredients, and what it was read from is its encoding.
pub proof fn law_record_read_is_canonical(bytes: Seq<u8>)
    requires
        record_read(bytes) is Ok,
    ensures
        ({
            let record = record_read(bytes)->Ok_0;
            &&& record == record.ingredients().record()
            &&& record.ingredients().are_valid()
            &&& record.ingredients().bytes().is_prefix_of(bytes)
        }),
{
    law_ingredients_read_is_canonical(bytes);
    law_ingredients_are_kept(ingredients_read(bytes)->Ok_0);
}

/// Two records with one encoding that were made from their ingredients are the same.
pub proof fn law_record_encoding_is_injective(a: RecordView, b: RecordView)
    requires
        a.ingredients().are_valid(),
        b.ingredients().are_valid(),
        a == a.ingredients().record(),
        b == b.ingredients().record(),
        a.ingredients().bytes() == b.ingredients().bytes(),
    ensures
        a == b,
{
    law_record_read_gives_back(a, Seq::empty());
    law_record_read_gives_back(b, Seq::empty());
}

/// The bytes that are missing are those up to the end of the part that the read of a record is in.
pub proof fn law_missing_bytes_complete_a_part(bytes: Seq<u8>)
    requires
        ingredients_read(bytes) == Err::<Ingredients, RecordError>(RecordError::UnexpectedEof),
    ensures
        ({
            let end = bytes.len() + bytes_missing(bytes);
            let at_program_id = if bytes[40] == 1u8 {
                169int
            } else {
                41int
            };
            let at_randomizer = at_program_id + if bytes[at_program_id] == 1u8 {
                49int
            } else {
                1int
            };
            if bytes.len() < 32 {
                end == 32
            } else if bytes.len() < 40 {
                end == 40
            } else if bytes.len() == 40 {
                end == 41
            } else if bytes.len() < at_program_id {
                end == at_program_id
            } else if bytes.len() == at_program_id {
                end == at_program_id + 1
            } else if bytes.len() < at_randomizer {
                end == at_randomizer
            } else if bytes.len() < at_randomizer + 32 {
                end == at_randomizer + 32
            } else {
                end == at_randomizer + 64
            }
        }),
{
}

/// The read of a record comes to a result if and only if no bytes are missing.
pub proof fn law_missing_bytes_are_told(bytes: Seq<u8>)
    ensures
        bytes_missing(bytes) >= 0,
        bytes_missing(bytes) == 0 <==> ingredients_read(bytes) != Err::<Ingredients, RecordError>(
            RecordError::UnexpectedEof,
        ),
{
    lemma_a_whole_record_is_read(bytes);
}

/// With fewer bytes than are missing the read of a record comes to no result.
#[verifier::rlimit(30)]
pub proof fn law_missing_bytes_are_needed(bytes: Seq<u8>, more: Seq<u8>)
    requires
        more.len() < bytes_missing(bytes),
    ensures
        ingredients_read(bytes + more) == Err::<Ingredients, RecordError>(
            RecordError::UnexpectedEof,
        ),
{
    let all = bytes + more;
    let after_payload = if bytes[40] == flag_byte(true) {
        41 + RECORD_PAYLOAD_SIZE_IN_BYTES
    } else {
        41
    };
    if bytes.len() >= 32 {
        assert(all.take(32) =~= bytes.take(32));
    }
    if bytes.len() >= 40 {
        assert(all.skip(32).take(8) =~= bytes.skip(32).take(8));
        assert(all.skip(32).skip(8) =~= all.skip(40));
        assert(bytes.skip(32).skip(8) =~= bytes.skip(40));
        if bytes.len() == 40 {
            assert(all =~= bytes);
        }
    }
    if bytes.len() >= 41 && bytes.len() >= after_payload {
        let length = after_payload - 40;
        assert(all.skip(40).skip(1).take(128) =~= bytes.skip(40).skip(1).take(128) || after_payload
            == 41);
        assert(all.skip(40).skip(length) =~= all.skip(after_payload as int));
        assert(bytes.skip(40).skip(length) =~= bytes.skip(after_payload as int));
        if bytes.len() == after_payload {
            assert(all =~= bytes);
        } else {
            let after_program_id = if bytes[after_payload as int] == flag_byte(true) {
                after_payload + 49
            } else {
                after_payload + 1
            };
            let length = after_program_id - after_payload;
            let rest = bytes.skip(after_payload as int);
            let all_rest = all.skip(after_payload as int);
            if bytes.len() >= after_program_id {
                assert(all_rest.skip(1).take(48) =~= rest.skip(1).take(48) || length == 1);
                assert(all_rest.skip(length) =~= all.skip(after_program_id as int));
                assert(rest.skip(length) =~= bytes.skip(after_program_id as int));
                if bytes.len() >= after_program_id + 32 {
                    assert(all.skip(after_program_id as int).take(32) =~= bytes.skip(
                        after_program_id as int,
                    ).take(32));
                }
            }
        }
    }
}

/// A read that always goes on by the bytes that are missing takes the encoding of the record, and
/// no byte that follows it.
#[verifier::rlimit(30)]
pub proof fn law_missing_bytes_end_the_record(bytes: Seq<u8>, more: Seq<u8>)
    requires
        more.len() == bytes_missing(bytes),
        more.len() > 0,
        ingredients_read(bytes + more) is Ok,
    ensures
        ingredients_read(bytes + more)->Ok_0.bytes() == bytes + more,
{
    let ingredients = ingredients_read(bytes + more)->Ok_0;
    let taken = ingredients.bytes();
    law_ingredients_read_is_canonical(bytes + more);
    lemma_prefix_of_sum(taken, bytes, more);
    if taken.len() <= bytes.len() {
        law_ingredients_read_gives_back(ingredients, bytes.skip(taken.len() as int));
    } else if taken.len() < bytes.len() + more.len() {
        law_missing_bytes_are_needed(bytes, more.take(taken.len() - bytes.len()));
        law_ingredients_read_gives_back(ingredients, Seq::empty());
    }
}

/// A prefix of two byte strings one after the other ends in the first or in the second one.
proof fn lemma_prefix_of_sum(prefix: Seq<u8>, a: Seq<u8>, b: Seq<u8>)
    requires
        prefix.is_prefix_of(a + b),
    ensures
        prefix.len() <= a.len() + b.len(),
        prefix.len() <= a.len() ==> prefix + a.skip(prefix.len() as int) == a,
        prefix.len() > a.len() ==> a + b.take(prefix.len() - a.len()) == prefix,
        prefix.len() == a.len() + b.len() ==> prefix == a + b,
        prefix + Seq::<u8>::empty() == prefix,
{
    assert(prefix =~= (a + b).take(prefix.len() as int));
    if prefix.len() <= a.len() {
        assert(prefix + a.skip(prefix.len() as int) =~= a);
    } else {
        assert(a + b.take(prefix.len() - a.len()) =~= prefix);
    }
    assert(prefix + Seq::<u8>::empty() =~= prefix);
}

/// The read of a record that has all its parts does not come to the end of the input.
proof fn lemma_a_whole_record_is_read(bytes: Seq<u8>)
    ensures
        ingredients_read(bytes) == Err::<Ingredients, RecordError>(RecordError::UnexpectedEof)
            ==> bytes.len() < part_end(bytes),
{
    assert(bytes.skip(32).skip(8) =~= bytes.skip(40) || bytes.len() < 40);
    let after_payload = if bytes[40] == flag_byte(true) {
        41 + RECORD_PAYLOAD_SIZE_IN_BYTES
    } else {
        41
    };
    if bytes.len() > after_payload {
        assert(bytes.skip(40).skip(after_payload - 40) =~= bytes.skip(after_payload as int));
    }
}

/// Appends a flag to `out`.
fn write_flag(flag: bool, out: &mut Vec<u8>)
    ensures
        final(out)@ == old(out)@ + seq![flag_byte(flag)],
{
    out.push(if flag { 1 } else { 0 });
    assert(out@ =~= old(out)@ + seq![flag_byte(flag)]);
}

/// Reads a flag off `bytes` at `pos`.
fn read_flag(bytes: &[u8], pos: usize) -> (r: Result<bool, RecordError>)
    requires
        pos <= bytes@.len(),
    ensures
        match byte_read(bytes@.skip(pos as int)) {
            Err(e) => r == Err::<bool, RecordError>(e),
            Ok(byte) => if byte == flag_byte(false) {
                r == Ok::<bool, RecordError>(false)
            } else if byte == flag_byte(true) {
                r == Ok::<bool, RecordError>(true)
            } else {
                r == Err::<bool, RecordError>(RecordError::InvalidFlag)
            },
        },
{
    if pos == bytes.len() {
        return Err(RecordError::UnexpectedEof);
    }
    match bytes[pos] {
        0 => Ok(false),
        1 => Ok(true),
        _ => Err(RecordError::InvalidFlag),
    }
}

/// Returns what is left of `bytes` at `pos`.
fn rest_of(bytes: &[u8], pos: usize) -> (rest: &[u8])
    requires
        pos <= bytes@.len(),
    ensures
        rest@ == bytes@.skip(pos as int),
{
    let rest: &[u8] = slice_subrange(bytes, pos, bytes.len());
    assert(rest@ =~= bytes@.skip(pos as int));
    rest
}

impl Record {
    /// Appends the encoding of the record to `out`.
    pub fn write_le(&self, out: &mut Vec<u8>) -> (r: Result<(), RecordError>)
        ensures
            r is Ok,
            final(out)@ == old(out)@ + self@.ingredients().bytes(),
            self@.ingredients().are_valid(),
    {
        let owner: Address = self.owner();
        let randomizer: RecordRandomizer = self.randomizer();
        let record_view_key: RecordViewKey = *self.record_view_key();
        proof {
            use_type_invariant(&owner);
            use_type_invariant(&randomizer);
            use_type_invariant(&record_view_key);
        }
        owner.write_le(out);
        self.value().write_le(out);
        match self.payload() {
            Some(payload) => {
                write_flag(true, out);
                payload.write_le(out);
            },
            None => write_flag(false, out),
        }
        match self.program_id() {
            Some(program_id) => {
                proof {
                    use_type_invariant(&program_id);
                }
                write_flag(true, out);
                program_id.write_le(out);
            },
            None => write_flag(false, out),
        }
        randomizer.write_le(out);
        record_view_key.write_le(out);
        assert(out@ =~= old(out)@ + self@.ingredients().bytes());
        Ok(())
    }

    /// Returns the encoding of the record.
    pub fn to_bytes_le(&self) -> (r: Result<Vec<u8>, RecordError>)
        ensures
            match r {
                Ok(bytes) => {
                    &&& bytes@ == self@.ingredients().bytes()
                    &&& self@ == self@.ingredients().record() ==> record_read(bytes@) == Ok::<
                        RecordView,
                        RecordError,
                    >(self@)
                },
                Err(_) => false,
            },
    {
        let mut bytes: Vec<u8> = Vec::new();
        match self.write_le(&mut bytes) {
            Ok(()) => {
                proof {
                    assert(bytes@ =~= self@.ingredients().bytes());
                    if self@ == self@.ingredients().record() {
                        law_record_read_gives_back(self@, Seq::empty());
                        assert(bytes@ + Seq::<u8>::empty() =~= bytes@);
                    }
                }
                Ok(bytes)
            },
            Err(e) => Err(e),
        }
    }

    /// Reads a record off the front of `bytes`.
    pub fn read_le(bytes: &[u8]) -> (r: Result<Record, RecordError>)
        ensures
            match r {
                Ok(record) => record_read(bytes@) == Ok::<RecordView, RecordError>(record@),
                Err(e) => record_read(bytes@) == Err::<RecordView, RecordError>(e),
            },
    {
        match read_ingredients(bytes) {
            Ok((owner, value, payload, program_id, randomizer, record_view_key)) => Record::from(
                owner,
                value,
                payload,
                program_id,
                randomizer,
                record_view_key,
            ),
            Err(e) => Err(e),
        }
    }

    /// Returns how many more bytes the read of a record needs that has come to the end of `bytes`,
    /// to go on to the end of the part it is in.
    pub fn missing_bytes(bytes: &[u8]) -> (missing: usize)
        ensures
            missing == bytes_missing(bytes@),
    {
        let len: usize = bytes.len();
        match read_ingredients(bytes) {
            Err(RecordError::UnexpectedEof) => {},
            _ => return 0,
        }
        if len < 32 {
            return 32 - len;
        }
        if len < 40 {
            return 40 - len;
        }
        if len < 41 {
            return 1;
        }
        let after_payload: usize = if bytes[40] == 1 { 41 + RECORD_PAYLOAD_SIZE_IN_BYTES } else { 41 };
        if len < after_payload {
            return after_payload - len;
        }
        if len == after_payload {
            return 1;
        }
        let after_program_id: usize = if bytes[after_payload] == 1 {
            after_payload + 49
        } else {
            after_payload + 1
        };
        if len < after_program_id {
            after_program_id - len
        } else if len < after_program_id + 32 {
            after_program_id + 32 - len
        } else {
            proof {
                lemma_a_whole_record_is_read(bytes@);
            }
            after_program_id + 64 - len
        }
    }
}

/// Reads the ingredients of a record off the front of `bytes`.
#[verifier::rlimit(30)]
fn read_ingredients(bytes: &[u8]) -> (r: Result<
    (Address, AleoAmount, Option<Payload>, Option<ProgramId>, RecordRandomizer, RecordViewKey),
    RecordError,
>)
    ensures
        match r {
            Ok((owner, value, payload, program_id, randomizer, record_view_key)) =>
                ingredients_read(bytes@) == Ok::<Ingredients, RecordError>(
                    Ingredients {
                        owner: owner@,
                        value: value@,
                        payload: viewed(payload),
                        program_id: viewed(program_id),
                        randomizer: randomizer@,
                        record_view_key: record_view_key@,
                    },
                ),
            Err(e) => ingredients_read(bytes@) == Err::<Ingredients, RecordError>(e),
        },
{
    let owner: Address = match Address::read_le(bytes) {
        Ok(owner) => owner,
        Err(e) => return Err(e),
    };
    let value: AleoAmount = match AleoAmount::read_le(rest_of(bytes, 32)) {
        Ok(value) => value,
        Err(e) => return Err(e),
    };
    let ghost at_payload = bytes@.skip(32).skip(8);
    assert(at_payload =~= bytes@.skip(40));

    let payload_exists: bool = match read_flag(bytes, 40) {
        Ok(flag) => flag,
        Err(e) => return Err(e),
    };
    assert(at_payload.skip(1) =~= bytes@.skip(41));
    let mut pos: usize = 41;
    let mut payload: Option<Payload> = None;
    if payload_exists {
        match Payload::read_le(rest_of(bytes, 41)) {
            Ok(read) => {
                payload = Some(read);
                pos = 41 + RECORD_PAYLOAD_SIZE_IN_BYTES;
            },
            Err(e) => return Err(e),
        }
    }
    let ghost at_program_id = at_payload.skip(optional_bytes(viewed(payload)).len() as int);
    assert(at_program_id =~= bytes@.skip(pos as int));

    let program_id_exists: bool = match read_flag(bytes, pos) {
        Ok(flag) => flag,
        Err(e) => return Err(e),
    };
    assert(at_program_id.skip(1) =~= bytes@.skip(pos + 1));
    pos = pos + 1;
    let mut program_id: Option<ProgramId> = None;
    if program_id_exists {
        match ProgramId::read_le(rest_of(bytes, pos)) {
            Ok(read) => {
                program_id = Some(read);
                pos = pos + 48;
            },
            Err(e) => return Err(e),
        }
    }
    let ghost at_randomizer = at_program_id.skip(
        optional_bytes(viewed(program_id)).len() as int,
    );
    assert(at_randomizer =~= bytes@.skip(pos as int));

    let randomizer: RecordRandomizer = match FieldElement::read_le(rest_of(bytes, pos)) {
        Ok(randomizer) => randomizer,
        Err(e) => return Err(e),
    };
    assert(at_randomizer.skip(32) =~= bytes@.skip(pos + 32));
    let record_view_key: RecordViewKey = match FieldElement::read_le(rest_of(bytes, pos + 32)) {
        Ok(record_view_key) => record_view_key,
        Err(e) => return Err(e),
    };

    Ok((owner, value, payload, program_id, randomizer, record_view_key))
}

} // verus!
